//! Rewriting of listen addresses: slash-delimited protocol/value sequences
//! such as `/ip4/127.0.0.1/tcp/2428`.  The segment after a `tcp` or `udp`
//! segment is the port; rewriting replaces every such port and leaves all
//! other segments unchanged.

use vstd::prelude::*;

use crate::errors::AppError;
use crate::strutil::{
    dec_rep, digits_val, is_port_str, parse_port_str, str_eq, u16_to_string,
};

verus! {

use vstd::string::StringExecFns;

/// The views of a sequence of owned strings.
pub open spec fn views_of(v: Seq<String>) -> Seq<Seq<char>> {
    v.map_values(|s: String| s@)
}

/// Index of the first `/` in `s`, or `s.len()` when there is none.
pub open spec fn first_slash(s: Seq<char>) -> int
    decreases s.len(),
{
    if s.len() == 0 {
        0
    } else if s[0] == '/' {
        0
    } else {
        1 + first_slash(s.skip(1))
    }
}

/// `s` split on `/`; splitting the empty text gives one empty segment.
pub open spec fn split_slash(s: Seq<char>) -> Seq<Seq<char>>
    decreases s.len(),
    when true
    via split_slash_decreases
{
    let i = first_slash(s);
    if i >= s.len() {
        seq![s]
    } else {
        seq![s.take(i)] + split_slash(s.skip(i + 1))
    }
}

pub proof fn lemma_first_slash_bounds(s: Seq<char>)
    ensures
        0 <= first_slash(s) <= s.len(),
        first_slash(s) < s.len() ==> s[first_slash(s)] == '/',
        forall|k: int| 0 <= k < first_slash(s) ==> s[k] != '/',
    decreases s.len(),
{
    if s.len() > 0 && s[0] != '/' {
        lemma_first_slash_bounds(s.skip(1));
        assert forall|k: int| 0 <= k < first_slash(s) implies s[k] != '/' by {
            if k > 0 {
                assert(s.skip(1)[k - 1] == s[k]);
            }
        }
    }
}

#[via_fn]
proof fn split_slash_decreases(s: Seq<char>) {
    lemma_first_slash_bounds(s);
}

proof fn lemma_first_slash_at(s: Seq<char>, k: int)
    requires
        0 <= k <= s.len(),
        forall|i: int| 0 <= i < k ==> s[i] != '/',
        k == s.len() || s[k] == '/',
    ensures
        first_slash(s) == k,
    decreases k,
{
    if k > 0 {
        assert(forall|i: int| 0 <= i < k - 1 ==> s.skip(1)[i] == s[i + 1]);
        lemma_first_slash_at(s.skip(1), k - 1);
    }
}

fn seg_end(s: &str, start: usize, n: usize) -> (end: usize)
    requires
        n == s@.len(),
        start <= n,
    ensures
        start <= end <= n,
        forall|i: int| start <= i < end ==> s@[i] != '/',
        end < n ==> s@[end as int] == '/',
    decreases n - start,
{
    let mut end = start;
    while end < n
        invariant
            n == s@.len(),
            start <= end <= n,
            forall|i: int| start <= i < end ==> s@[i] != '/',
        decreases n - end,
    {
        if s.get_char(end) == '/' {
            return end;
        }
        end = end + 1;
    }
    end
}

/// Splits `s` on `/`, keeping empty segments.
pub fn split_segments(s: &str) -> (r: Vec<String>)
    ensures
        views_of(r@) == split_slash(s@),
{
    let n = s.unicode_len();
    let mut r: Vec<String> = Vec::new();
    let mut start: usize = 0;
    proof {
        assert(views_of(r@) =~= Seq::<Seq<char>>::empty());
        assert(s@.skip(0) =~= s@);
        assert(views_of(r@) + split_slash(s@) =~= split_slash(s@));
    }
    loop
        invariant_except_break
            n == s@.len(),
            start <= n,
            split_slash(s@) == views_of(r@) + split_slash(s@.skip(start as int)),
        ensures
            views_of(r@) == split_slash(s@),
        decreases n - start,
    {
        let end = seg_end(s, start, n);
        let piece = s.substring_char(start, end).to_owned();
        proof {
            let rest = s@.skip(start as int);
            lemma_first_slash_at(rest, end - start);
            assert(forall|i: int| 0 <= i < end - start ==> rest[i] == s@[start + i]);
            assert(rest.take(end - start) =~= s@.subrange(start as int, end as int));
            if end < n {
                assert(rest.skip(end - start + 1) =~= s@.skip(end + 1));
            } else {
                assert(rest =~= s@.subrange(start as int, end as int));
            }
        }
        let ghost old_r = r@;
        r.push(piece);
        proof {
            assert(views_of(r@) =~= views_of(old_r) + seq![piece@]);
            if end < n {
                assert(split_slash(s@) =~= views_of(r@) + split_slash(s@.skip(end + 1)));
            } else {
                assert(split_slash(s@) =~= views_of(r@));
            }
        }
        if end == n {
            break;
        }
        start = end + 1;
    }
    r
}

/// A transport segment whose following segment is a port.
pub open spec fn is_transport_seg(s: Seq<char>) -> bool {
    s == "tcp"@ || s == "udp"@
}

/// Some segment of the address names a transport.
pub open spec fn has_transport(segs: Seq<Seq<char>>) -> bool {
    exists|i: int| 0 <= i < segs.len() && is_transport_seg(segs[i])
}

/// Every transport segment is followed by a valid textual port.
pub open spec fn transports_valid(segs: Seq<Seq<char>>) -> bool {
    forall|i: int|
        0 <= i < segs.len() && is_transport_seg(segs[i]) ==> i + 1 < segs.len()
            && is_port_str(segs[i + 1])
}

/// The segments with every port after a transport replaced by `p`, or `None`
/// when some transport is not followed by a valid port.
pub open spec fn rewrite_segs(segs: Seq<Seq<char>>, p: Seq<char>) -> Option<
    Seq<Seq<char>>,
>
    decreases segs.len(),
{
    if segs.len() == 0 {
        Some(Seq::empty())
    } else if is_transport_seg(segs[0]) {
        if segs.len() >= 2 && is_port_str(segs[1]) {
            match rewrite_segs(segs.skip(2), p) {
                Some(rest) => Some(seq![segs[0], p] + rest),
                None => None,
            }
        } else {
            None
        }
    } else {
        match rewrite_segs(segs.skip(1), p) {
            Some(rest) => Some(seq![segs[0]] + rest),
            None => None,
        }
    }
}

/// Segments joined with `/` between them.
pub open spec fn join_slash(segs: Seq<Seq<char>>) -> Seq<char>
    decreases segs.len(),
{
    if segs.len() == 0 {
        Seq::empty()
    } else if segs.len() == 1 {
        segs[0]
    } else {
        segs[0] + seq!['/'] + join_slash(segs.skip(1))
    }
}

/// The shape a listen address must have: a leading `/` (an empty first
/// segment) and no other empty segment.
pub open spec fn addr_shape_ok(segs: Seq<Seq<char>>) -> bool {
    &&& segs.len() >= 2
    &&& segs[0].len() == 0
    &&& forall|i: int| 1 <= i < segs.len() ==> segs[i].len() > 0
}

/// The rewritten address, or `None` when the new port is not numeric, the
/// address is malformed, it has no transport segment, or some existing port
/// is not numeric.
pub open spec fn rewrite_address(a: Seq<char>, new_port: Seq<char>) -> Option<
    Seq<char>,
> {
    let segs = split_slash(a);
    if is_port_str(new_port) && addr_shape_ok(segs) && has_transport(segs) {
        match rewrite_segs(segs, dec_rep(digits_val(new_port))) {
            Some(out) => Some(join_slash(out)),
            None => None,
        }
    } else {
        None
    }
}

fn is_transport_segment(s: &String) -> (r: bool)
    ensures
        r == is_transport_seg(s@),
{
    str_eq(s.as_str(), "tcp") || str_eq(s.as_str(), "udp")
}

fn rewrite_segments(segs: &Vec<String>, port: &String) -> (r: Option<(Vec<String>, bool)>)
    ensures
        match r {
            Some(out) => {
                &&& rewrite_segs(views_of(segs@), port@) == Some(views_of(out.0@))
                &&& out.1 == has_transport(views_of(segs@))
            },
            None => rewrite_segs(views_of(segs@), port@) is None,
        },
{
    let ghost sv = views_of(segs@);
    let n = segs.len();
    let mut out: Vec<String> = Vec::new();
    let mut seen = false;
    let mut i: usize = 0;
    proof {
        assert(sv.skip(0) =~= sv);
        assert(views_of(out@) =~= Seq::<Seq<char>>::empty());
        if rewrite_segs(sv, port@) is Some {
            assert(views_of(out@) + rewrite_segs(sv, port@)->Some_0 =~= rewrite_segs(
                sv,
                port@,
            )->Some_0);
        }
    }
    while i < n
        invariant
            n == segs.len(),
            i <= n,
            sv == views_of(segs@),
            seen == exists|k: int| 0 <= k < i && is_transport_seg(sv[k]),
            match rewrite_segs(sv.skip(i as int), port@) {
                Some(rest) => rewrite_segs(sv, port@) == Some(views_of(out@) + rest),
                None => rewrite_segs(sv, port@) is None,
            },
        decreases n - i,
    {
        proof {
            assert(sv[i as int] == segs@[i as int]@);
            assert(sv.skip(i as int)[0] == sv[i as int]);
        }
        if is_transport_segment(&segs[i]) {
            if i + 1 < n && parse_port_str(segs[i + 1].as_str()).is_some() {
                proof {
                    assert(sv[i + 1] == segs@[i + 1]@);
                    assert(sv.skip(i as int)[1] == sv[i + 1]);
                    assert(sv.skip(i as int).skip(2) =~= sv.skip(i + 2));
                }
                let ghost old_out = out@;
                out.push(segs[i].clone());
                out.push(port.clone());
                proof {
                    assert(views_of(out@) =~= views_of(old_out) + seq![
                        sv[i as int],
                        port@,
                    ]);
                    if rewrite_segs(sv.skip(i + 2), port@) is Some {
                        assert(views_of(out@) + rewrite_segs(sv.skip(i + 2), port@)->Some_0
                            =~= views_of(old_out) + rewrite_segs(
                            sv.skip(i as int),
                            port@,
                        )->Some_0);
                    }
                }
                seen = true;
                i = i + 2;
            } else {
                proof {
                    if i + 1 < n {
                        assert(sv[i + 1] == segs@[i + 1]@);
                        assert(sv.skip(i as int)[1] == sv[i + 1]);
                    }
                    assert(rewrite_segs(sv.skip(i as int), port@) is None);
                }
                return None;
            }
        } else {
            proof {
                assert(sv.skip(i as int).skip(1) =~= sv.skip(i + 1));
            }
            let ghost old_out = out@;
            out.push(segs[i].clone());
            proof {
                assert(views_of(out@) =~= views_of(old_out) + seq![sv[i as int]]);
                if rewrite_segs(sv.skip(i + 1), port@) is Some {
                    assert(views_of(out@) + rewrite_segs(sv.skip(i + 1), port@)->Some_0
                        =~= views_of(old_out) + rewrite_segs(
                        sv.skip(i as int),
                        port@,
                    )->Some_0);
                }
            }
            i = i + 1;
        }
    }
    proof {
        assert(sv.skip(n as int) =~= Seq::<Seq<char>>::empty());
        assert(rewrite_segs(sv.skip(n as int), port@) == Some(
            Seq::<Seq<char>>::empty(),
        ));
        assert(views_of(out@) + Seq::<Seq<char>>::empty() =~= views_of(out@));
    }
    Some((out, seen))
}

fn join_segments(segs: &Vec<String>) -> (r: String)
    ensures
        r@ == join_slash(views_of(segs@)),
{
    let ghost sv = views_of(segs@);
    let n = segs.len();
    let mut out = String::new();
    let mut i: usize = 0;
    proof {
        assert(sv.skip(0) =~= sv);
        assert(out@ + join_slash(sv) =~= join_slash(sv));
    }
    while i < n
        invariant
            n == segs.len(),
            i <= n,
            sv == views_of(segs@),
            join_slash(sv) == out@ + join_slash(sv.skip(i as int)),
        decreases n - i,
    {
        proof {
            assert(sv[i as int] == segs@[i as int]@);
            assert(sv.skip(i as int)[0] == sv[i as int]);
            if i + 1 < n {
                assert(sv.skip(i as int).skip(1) =~= sv.skip(i + 1));
            }
        }
        out.append(segs[i].as_str());
        if i + 1 < n {
            out.append("/");
            proof {
                reveal_strlit("/");
                assert(join_slash(sv.skip(i as int)) =~= sv[i as int] + seq!['/']
                    + join_slash(sv.skip(i + 1)));
                assert(join_slash(sv) =~= out@ + join_slash(sv.skip(i + 1)));
            }
        } else {
            proof {
                assert(sv.skip(i as int).len() == 1);
                assert(join_slash(sv.skip(i as int)) == sv[i as int]);
                assert(sv.skip(i + 1) =~= Seq::<Seq<char>>::empty());
                assert(join_slash(sv) =~= out@ + join_slash(sv.skip(i + 1)));
            }
        }
        i = i + 1;
    }
    proof {
        if n == 0 {
            assert(join_slash(sv) =~= Seq::<char>::empty());
        }
        assert(out@ =~= join_slash(sv));
    }
    out
}

fn check_shape(segs: &Vec<String>) -> (r: bool)
    ensures
        r == addr_shape_ok(views_of(segs@)),
{
    let ghost sv = views_of(segs@);
    proof {
        assert(sv.len() == segs@.len());
    }
    let n = segs.len();
    if n < 2 {
        return false;
    }
    proof {
        assert(sv[0] == segs@[0]@);
    }
    if !segs[0].as_str().is_empty() {
        return false;
    }
    let mut i: usize = 1;
    while i < n
        invariant
            n == segs.len(),
            1 <= i <= n,
            sv == views_of(segs@),
            forall|j: int| 1 <= j < i ==> sv[j].len() > 0,
        decreases n - i,
    {
        proof {
            assert(sv[i as int] == segs@[i as int]@);
        }
        if segs[i].as_str().is_empty() {
            return false;
        }
        i = i + 1;
    }
    true
}

/// Replaces every port that follows a `tcp` or `udp` segment of `address`
/// with `new_port`, preserving all other segments in order.  Fails, rather
/// than passing the address through, when the new port is not a number, the
/// address is malformed or has no transport segment, or an existing port is
/// not a number.
pub fn change_port_in_path(address: &str, new_port: &str) -> (r: Result<
    String,
    AppError,
>)
    ensures
        match r {
            Ok(out) => rewrite_address(address@, new_port@) == Some(out@),
            Err(e) => rewrite_address(address@, new_port@) is None && e
                is InvalidInput,
        },
{
    let parsed = parse_port_str(new_port);
    let port_text = match parsed {
        Some(v) => u16_to_string(v),
        None => {
            return Err(
                AppError::InvalidInput("Invalid port number".to_owned()),
            );
        },
    };
    let segs = split_segments(address);
    if !check_shape(&segs) {
        return Err(AppError::InvalidInput("Invalid multiaddr format".to_owned()));
    }
    match rewrite_segments(&segs, &port_text) {
        Some((out, seen)) => {
            if !seen {
                Err(AppError::InvalidInput(
                    "Invalid multiaddr format".to_owned(),
                ))
            } else {
                Ok(join_segments(&out))
            }
        },
        None => Err(AppError::InvalidInput("Invalid port number".to_owned())),
    }
}

/// The first `tcp` port of the address, when every transport carries a valid
/// port.
pub open spec fn first_tcp_port(segs: Seq<Seq<char>>) -> Option<int>
    decreases segs.len(),
{
    if segs.len() == 0 {
        None
    } else if segs[0] == "tcp"@ {
        if segs.len() >= 2 && is_port_str(segs[1]) {
            Some(digits_val(segs[1]))
        } else {
            None
        }
    } else {
        first_tcp_port(segs.skip(1))
    }
}

/// The TCP port an address binds, or `None` when the address is malformed.
pub open spec fn address_tcp_port(a: Seq<char>) -> Option<int> {
    let segs = split_slash(a);
    if addr_shape_ok(segs) && transports_valid(segs) {
        first_tcp_port(segs)
    } else {
        None
    }
}

/// Reads the TCP port out of a listen address, validating every transport
/// segment on the way, as a full parse of the address would.
pub fn port_of_address(address: &str) -> (r: Result<u16, AppError>)
    ensures
        match r {
            Ok(p) => address_tcp_port(address@) == Some(p as int),
            Err(e) => address_tcp_port(address@) is None && e is InvalidInput,
        },
{
    let segs = split_segments(address);
    let ghost sv = views_of(segs@);
    if !check_shape(&segs) {
        return Err(AppError::InvalidInput("Invalid multiaddr format".to_owned()));
    }
    let n = segs.len();
    let mut found: Option<u16> = None;
    let mut i: usize = 0;
    proof {
        assert(sv.skip(0) =~= sv);
    }
    while i < n
        invariant
            n == segs.len(),
            i <= n,
            sv == views_of(segs@),
            sv == split_slash(address@),
            sv.len() == n,
            forall|k: int|
                0 <= k < i && is_transport_seg(sv[k]) ==> k + 1 < n && is_port_str(
                    sv[k + 1],
                ),
            match found {
                Some(p) => first_tcp_port(sv) == Some(p as int),
                None => first_tcp_port(sv) == first_tcp_port(sv.skip(i as int)),
            },
        decreases n - i,
    {
        proof {
            assert(sv[i as int] == segs@[i as int]@);
            assert(sv.skip(i as int)[0] == sv[i as int]);
            if i + 1 < n {
                assert(sv[i + 1] == segs@[i + 1]@);
                assert(sv.skip(i as int)[1] == sv[i + 1]);
            }
            assert(sv.skip(i as int).skip(1) =~= sv.skip(i + 1));
        }
        let is_tcp = str_eq(segs[i].as_str(), "tcp");
        let is_udp = !is_tcp && str_eq(segs[i].as_str(), "udp");
        if is_tcp || is_udp {
            let pv = if i + 1 < n {
                parse_port_str(segs[i + 1].as_str())
            } else {
                None
            };
            match pv {
                Some(p) => {
                    if found.is_none() && is_tcp {
                        found = Some(p);
                    }
                },
                None => {
                    proof {
                        assert(is_transport_seg(sv[i as int]));
                        if i + 1 < n {
                            assert(!is_port_str(sv[i + 1]));
                        }
                        assert(!transports_valid(sv));
                    }
                    return Err(
                        AppError::InvalidInput("Invalid port number".to_owned()),
                    );
                },
            }
        }
        i = i + 1;
    }
    proof {
        assert(sv.skip(n as int) =~= Seq::<Seq<char>>::empty());
        assert(transports_valid(sv));
    }
    match found {
        Some(p) => Ok(p),
        None => Err(AppError::InvalidInput("Invalid multiaddr format".to_owned())),
    }
}

} // verus!
