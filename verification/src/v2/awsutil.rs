//! Utility functions for using Sonyflake on AWS: what the EC2 metadata service
//! answers becomes a machine ID, and what `ntpdate` prints becomes an offset.

use vstd::prelude::*;
use vstd::string::StrSliceExecFns;
use crate::gonet::{parse_result, to4_bytes, Ip};
use crate::lower16;
use crate::text::{push_signed_decimal, push_str, signed_decimal, str_chars};
use super::error::{error_text, Error};

verus! {

/// The text of the error for an answer that is no IPv4 address.
pub open spec fn invalid_ip_text() -> Seq<char> {
    "invalid ip address"@
}

/// What `amazon_ec2_private_ipv4` answers once the metadata body has parsed
/// as `parsed`: its IPv4 form, or an error when it did not parse.
pub open spec fn private_ipv4_outcome(parsed: Option<Ip>, r: Result<Option<Ip>, Error>) -> bool {
    match parsed {
        None => r matches Err(e) && e is Other && error_text(e) == invalid_ip_text(),
        Some(ip) => r matches Ok(o) && crate::gonet::ip_bytes(o) == to4_bytes(ip.0@),
    }
}

/// Go's `amazonEC2PrivateIPv4`, given the answer of the metadata service
/// (`body`, or the error of the request): the address it names, in its
/// 4-byte form where it is an IPv4 address. `parse_ipv6` parses IPv6 text.
pub fn amazon_ec2_private_ipv4<F: Fn(&str) -> Option<Vec<u8>>>(
    body: Result<String, Error>,
    parse_ipv6: &F,
) -> (r: Result<Option<Ip>, Error>)
    requires
        forall|s: &str| call_requires(*parse_ipv6, (s,)),
    ensures
        body matches Err(e) ==> r == Err::<Option<Ip>, Error>(e),
        body matches Ok(b) ==> exists|p: Option<Ip>|
            parse_result(b@, *parse_ipv6, p) && private_ipv4_outcome(p, r),
{
    match body {
        Err(e) => Err(e),
        Ok(b) => {
            let parsed = Ip::parse(b.as_str(), parse_ipv6);
            let ghost p = parsed;
            let r = match parsed {
                Some(ip) => Ok(ip.to4()),
                None => Err(Error::message("invalid ip address")),
            };
            proof {
                reveal_strlit("invalid ip address");
            }
            assert(parse_result(b@, *parse_ipv6, p) && private_ipv4_outcome(p, r));
            r
        },
    }
}

/// What `amazon_ec2_machine_id` answers once the metadata body has parsed as
/// `parsed`: the lower 16 bits of its IPv4 form, or an error.
pub open spec fn machine_id_outcome(parsed: Option<Ip>, r: Result<i32, Error>) -> bool {
    match parsed {
        Some(ip) => match to4_bytes(ip.0@) {
            Some(b) => r == Ok::<i32, Error>(lower16(b) as i32),
            None => r matches Err(e) && e is Other && error_text(e) == invalid_ip_text(),
        },
        None => r matches Err(e) && e is Other && error_text(e) == invalid_ip_text(),
    }
}

/// Retrieves the private IP address of the Amazon EC2 instance from the answer
/// of its metadata service (`body`, or the error of the request) and returns
/// its lower 16 bits. An answer that is no IPv4 address is an error.
pub fn amazon_ec2_machine_id<F: Fn(&str) -> Option<Vec<u8>>>(
    body: Result<String, Error>,
    parse_ipv6: &F,
) -> (r: Result<i32, Error>)
    requires
        forall|s: &str| call_requires(*parse_ipv6, (s,)),
    ensures
        body matches Err(e) ==> r == Err::<i32, Error>(e),
        body matches Ok(b) ==> exists|p: Option<Ip>|
            parse_result(b@, *parse_ipv6, p) && machine_id_outcome(p, r),
{
    let ghost g = body;
    let ip = amazon_ec2_private_ipv4(body, parse_ipv6);
    let ghost p: Option<Ip> = if let Ok(b) = g {
        choose|p: Option<Ip>| parse_result(b@, *parse_ipv6, p) && private_ipv4_outcome(p, ip)
    } else {
        None
    };
    proof {
        reveal_strlit("invalid ip address");
    }
    match ip {
        Err(e) => {
            assert(g matches Ok(b) ==> parse_result(b@, *parse_ipv6, p) && machine_id_outcome(p, Err(e)));
            Err(e)
        },
        Ok(None) => {
            let r = Err(Error::message("invalid ip address"));
            assert(g matches Ok(b) ==> parse_result(b@, *parse_ipv6, p) && machine_id_outcome(p, r));
            r
        },
        Ok(Some(ip4)) => {
            let b = ip4.as_bytes();
            proof {
                if let Ok(bd) = g {
                    if let Some(ipx) = p {
                        if ipx.0@.len() != 4 {
                            assert(ipx.0@.subrange(12, 16).len() == 4);
                        }
                    }
                }
            }
            assert(b@.len() == 4);
            let r = ((b[2] as i32) * 256) + b[3] as i32;
            assert(g matches Ok(bd) ==> parse_result(bd@, *parse_ipv6, p) && machine_id_outcome(p, Ok(r)));
            Ok(r)
        },
    }
}

// ---------------------------------------------------------------------------
// The offset that `ntpdate -q` reports
// ---------------------------------------------------------------------------

/// Whether `p` occurs in `s` at index `i`.
pub open spec fn occurs_at(s: Seq<char>, i: int, p: Seq<char>) -> bool {
    0 <= i && i + p.len() <= s.len() && s.subrange(i, i + p.len()) == p
}

/// Whether `i` is where `p` last occurs in `s`.
pub open spec fn is_last_occurrence(s: Seq<char>, p: Seq<char>, i: int) -> bool {
    occurs_at(s, i, p) && forall|j: int| i < j ==> !occurs_at(s, j, p)
}

/// Whether `e` ends the line of `s` that goes on at `from`: the first newline
/// at or after `from`, or the end of `s`.
pub open spec fn is_line_end(s: Seq<char>, from: int, e: int) -> bool {
    &&& from <= e <= s.len()
    &&& e < s.len() ==> s[e] == '\n'
    &&& forall|i: int| from <= i < e ==> s[i] != '\n'
}

/// The rest of the line of `s` from index `from` on.
pub open spec fn line_rest(s: Seq<char>, from: int) -> Seq<char> {
    s.subrange(from, choose|e: int| is_line_end(s, from, e))
}

/// Whether the regexp `offset (.*) sec` matches `s` from index `k`: `offset `
/// is there, and ` sec` follows later on the same line.
pub open spec fn offset_match_at(s: Seq<char>, k: int) -> bool {
    &&& occurs_at(s, k, "offset "@)
    &&& exists|j: int| #[trigger] occurs_at(line_rest(s, k + "offset "@.len()), j, " sec"@)
}

/// Whether `k` is where the regexp `offset (.*) sec` first matches `s`.
pub open spec fn is_first_match(s: Seq<char>, k: int) -> bool {
    offset_match_at(s, k) && forall|k2: int| 0 <= k2 < k ==> !offset_match_at(s, k2)
}

/// Go's `regexp.MustCompile("offset (.*) sec").FindSubmatch` on `s`: at the
/// leftmost match, the longest run after `offset ` up to a ` sec` on the same
/// line, as `.` matches no newline and `(.*)` is greedy.
pub open spec fn offset_seconds(s: Seq<char>) -> Option<Seq<char>> {
    if exists|k: int| offset_match_at(s, k) {
        let k = choose|k: int| is_first_match(s, k);
        let rest = line_rest(s, k + "offset "@.len());
        let j = choose|j: int| is_last_occurrence(rest, " sec"@, j);
        Some(rest.subrange(0, j))
    } else {
        None
    }
}

/// Whether `p` occurs in `s` at index `i`.
fn occurs_at_exec(s: &Vec<char>, i: usize, p: &Vec<char>) -> (b: bool)
    ensures
        b == occurs_at(s@, i as int, p@),
{
    if i > s.len() || p.len() > s.len() - i {
        return false;
    }
    let mut k: usize = 0;
    while k < p.len()
        invariant
            k <= p.len(),
            i + p.len() <= s.len(),
            forall|m: int| 0 <= m < k ==> s@[i + m] == p@[m],
        decreases p.len() - k,
    {
        if s[i + k] != p[k] {
            assert(s@.subrange(i as int, i + p.len())[k as int] != p@[k as int]);
            return false;
        }
        k = k + 1;
    }
    assert(s@.subrange(i as int, i + p.len()) =~= p@);
    true
}

/// A pattern within a stretch of `s` occurs there as it occurs in `s`.
proof fn lemma_occurs_in_stretch(s: Seq<char>, from: int, e: int, j: int, p: Seq<char>)
    requires
        0 <= from <= e <= s.len(),
        0 <= j,
    ensures
        occurs_at(s.subrange(from, e), j, p) <==> (from + j + p.len() <= e && occurs_at(
            s,
            from + j,
            p,
        )),
{
    let rest = s.subrange(from, e);
    if from + j + p.len() <= e {
        assert(rest.subrange(j, j + p.len()) =~= s.subrange(from + j, from + j + p.len()));
    }
}

/// The end of the line that goes on at `from`.
fn line_end(s: &Vec<char>, from: usize) -> (e: usize)
    requires
        from <= s.len(),
    ensures
        is_line_end(s@, from as int, e as int),
        line_rest(s@, from as int) == s@.subrange(from as int, e as int),
{
    let mut e: usize = from;
    while e < s.len() && s[e] != '\n'
        invariant
            from <= e <= s.len(),
            forall|i: int| from <= i < e ==> s@[i] != '\n',
        decreases s.len() - e,
    {
        e = e + 1;
    }
    proof {
        assert(is_line_end(s@, from as int, e as int));
        let e2 = choose|e2: int| is_line_end(s@, from as int, e2);
        if e2 < e {
            assert(s@[e2] != '\n');
        } else if e2 > e {
            assert(s@[e as int] != '\n');
        }
    }
    e
}

/// Where `p` last occurs in `s[from..e]`, if it does.
fn last_occurrence_in(s: &Vec<char>, from: usize, e: usize, p: &Vec<char>) -> (r: Option<usize>)
    requires
        from <= e <= s.len(),
        p.len() > 0,
    ensures
        match r {
            Some(j) => is_last_occurrence(s@.subrange(from as int, e as int), p@, j as int),
            None => forall|j: int| !occurs_at(s@.subrange(from as int, e as int), j, p@),
        },
{
    let ghost rest = s@.subrange(from as int, e as int);
    if e - from < p.len() {
        proof {
            assert forall|j: int| !occurs_at(rest, j, p@) by {
                if 0 <= j {
                    lemma_occurs_in_stretch(s@, from as int, e as int, j, p@);
                }
            }
        }
        return None;
    }
    let mut jj: usize = e - from - p.len() + 1;
    while jj > 0
        invariant
            jj <= e - from - p.len() + 1,
            e - from >= p.len(),
            from <= e <= s.len(),
            rest == s@.subrange(from as int, e as int),
            forall|j: int| jj <= j ==> !occurs_at(rest, j, p@),
        decreases jj,
    {
        let j = jj - 1;
        proof {
            lemma_occurs_in_stretch(s@, from as int, e as int, j as int, p@);
        }
        if occurs_at_exec(s, from + j, p) {
            return Some(j);
        }
        jj = j;
    }
    proof {
        assert forall|j: int| !occurs_at(rest, j, p@) by {
            if j < 0 {
            }
        }
    }
    None
}

/// Equivalent of Go's `regexp.MustCompile("offset (.*) sec").FindSubmatch`:
/// on the first line where ` sec` follows an `offset `, the text between the
/// first `offset ` and the last ` sec`.
pub fn find_offset_seconds(output: &str) -> (r: Option<&str>)
    ensures
        match r {
            Some(x) => offset_seconds(output@) == Some(x@),
            None => offset_seconds(output@) is None,
        },
{
    let s = str_chars(output);
    let offset = str_chars("offset ");
    let sec = str_chars(" sec");
    let ghost off = "offset "@;
    let ghost sc = " sec"@;
    proof {
        reveal_strlit("offset ");
        reveal_strlit(" sec");
    }
    let mut k: usize = 0;
    while k < s.len()
        invariant
            k <= s.len(),
            s@ == output@,
            offset@ == off,
            sec@ == sc,
            off == "offset "@,
            sc == " sec"@,
            off.len() == 7,
            sc.len() == 4,
            forall|k2: int| 0 <= k2 < k ==> !offset_match_at(s@, k2),
        decreases s.len() - k,
    {
        if occurs_at_exec(&s, k, &offset) {
            let from = k + offset.len();
            let e = line_end(&s, from);
            match last_occurrence_in(&s, from, e, &sec) {
                Some(j) => {
                    proof {
                        let rest = s@.subrange(from as int, e as int);
                        assert(offset_match_at(s@, k as int));
                        assert(is_first_match(s@, k as int));
                        let k3 = choose|k2: int| is_first_match(s@, k2);
                        if k3 < k {
                        } else if k3 > k {
                        }
                        assert(k3 == k);
                        let j3 = choose|j2: int| is_last_occurrence(rest, sc, j2);
                        if j3 < j {
                        } else if j3 > j {
                        }
                        assert(j3 == j);
                        assert(rest.subrange(0, j as int) =~= output@.subrange(
                            from as int,
                            from + j,
                        ));
                        assert(offset_seconds(output@) == Some(rest.subrange(0, j as int)));
                    }
                    return Some(output.substring_char(from, from + j));
                },
                None => {
                    assert(!offset_match_at(s@, k as int));
                },
            }
        }
        k = k + 1;
    }
    proof {
        assert forall|k2: int| !offset_match_at(s@, k2) by {
            if k2 >= k {
                assert(!occurs_at(s@, k2, off));
            }
        }
    }
    None
}

/// What `time_difference` makes of a run of `ntpdate -q`: its exit status
/// (`success`, and the code where there is one) and its combined output.
/// A failed run is the error `exit status N` (`-1` without a code); else the
/// offset text, or the error `invalid ntpdate output` without one.
pub fn ntpdate_offset<'a>(success: bool, code: Option<i32>, output: &'a str) -> (r: Result<
    &'a str,
    Error,
>)
    ensures
        !success ==> (r matches Err(e) && e matches Error::Other(w) && !w.identity_view().0
            && error_text(e) == "exit status "@ + signed_decimal(
            match code {
                Some(c) => c as int,
                None => -1,
            },
        )),
        success ==> match offset_seconds(output@) {
            Some(x) => r matches Ok(y) && y@ == x,
            None => r matches Err(e) && e matches Error::Other(w) && !w.identity_view().0
                && error_text(e) == "invalid ntpdate output"@,
        },
{
    if !success {
        let c: i32 = match code {
            Some(c) => c,
            None => -1,
        };
        let mut text = String::new();
        push_str(&mut text, "exit status ");
        push_signed_decimal(&mut text, c as i64);
        return Err(Error::message(text.as_str()));
    }
    match find_offset_seconds(output) {
        Some(x) => Ok(x),
        None => Err(Error::message("invalid ntpdate output")),
    }
}

/// The end of an HTTP response's header: `\r\n\r\n`.
pub open spec fn header_end() -> Seq<u8> {
    seq![13u8, 10, 13, 10]
}

/// Whether `p` occurs in the bytes `s` at index `i`.
pub open spec fn bytes_occur_at(s: Seq<u8>, i: int, p: Seq<u8>) -> bool {
    0 <= i && i + p.len() <= s.len() && s.subrange(i, i + p.len()) == p
}

/// Where the body of a raw HTTP response starts: just after the first
/// `\r\n\r\n`, or nothing for a response without one.
pub fn http_body_start(response: &Vec<u8>) -> (r: Option<usize>)
    ensures
        match r {
            Some(i) => i >= 4 && bytes_occur_at(response@, i - 4, header_end()) && (forall|j: int|
                0 <= j < i - 4 ==> !bytes_occur_at(response@, j, header_end())),
            None => forall|j: int| !bytes_occur_at(response@, j, header_end()),
        },
{
    let mut i: usize = 0;
    while i < response.len() && response.len() - i >= 4
        invariant
            i <= response.len(),
            forall|j: int| 0 <= j < i ==> !bytes_occur_at(response@, j, header_end()),
        decreases response.len() - i,
    {
        if response[i] == 13 && response[i + 1] == 10 && response[i + 2] == 13 && response[i + 3]
            == 10 {
            assert(response@.subrange(i as int, i + 4) =~= header_end());
            return Some(i + 4);
        }
        assert(!bytes_occur_at(response@, i as int, header_end())) by {
            if bytes_occur_at(response@, i as int, header_end()) {
                assert(response@.subrange(i as int, i + 4)[0] == response@[i as int]);
                assert(response@.subrange(i as int, i + 4)[1] == response@[i + 1]);
                assert(response@.subrange(i as int, i + 4)[2] == response@[i + 2]);
                assert(response@.subrange(i as int, i + 4)[3] == response@[i + 3]);
            }
        }
        i = i + 1;
    }
    None
}

/// The EC2 machine ID of an answer that parses to an IPv4 address a.b.c.d
/// (in either width) is c * 256 + d, which fits 16 bits; an answer that is no
/// IPv4 address gives an error.
pub proof fn lemma_ec2_machine_id(parsed: Option<Ip>, r: Result<i32, Error>)
    requires
        machine_id_outcome(parsed, r),
    ensures
        match parsed {
            Some(ip) => match to4_bytes(ip.0@) {
                Some(b) => r matches Ok(v) && b.len() == 4 && v == b[2] * 256 + b[3] && 0 <= v
                    < 65_536,
                None => r is Err,
            },
            None => r is Err,
        },
{
    if let Some(ip) = parsed {
        if ip.0@.len() == 16 {
            assert(ip.0@.subrange(12, 16).len() == 4);
        }
        if let Some(b) = to4_bytes(ip.0@) {
            assert(0 <= b[2] * 256 + b[3] < 65_536);
            assert(lower16(b) == b[2] * 256 + b[3]);
            assert((lower16(b) as i32) == lower16(b));
        }
    }
}

} // verus!
