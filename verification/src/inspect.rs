//! Populating running containers from daemon inspection reports: the
//! address each container got on the run's network, and its host port
//! map.
//!
//! The daemon RPC itself happens outside the library; what it returned
//! for each container arrives here as plain values.

use vstd::prelude::*;
use vstd::string::StrSliceExecFns;
use vstd::string::StringExecFns;

use crate::container::{HostPortMappings, Ipv4Address, RunningContainer};
use crate::engine::{Engine, Orbiting, Transitional};
use crate::error::DockerTestError;

verus! {

/// A decimal digit.
pub open spec fn is_ascii_digit(c: char) -> bool {
    48 <= c as u32 <= 57
}

/// The value of a decimal digit.
pub open spec fn digit_val(c: char) -> int {
    c as u32 - 48
}

/// The value of a string of decimal digits.
pub open spec fn dec_value(s: Seq<char>) -> int
    decreases s.len(),
{
    if s.len() == 0 {
        0
    } else {
        dec_value(s.drop_last()) * 10 + digit_val(s.last())
    }
}

/// The text of one address octet: one to three digits, value at most
/// 255, and no leading zero.
pub open spec fn is_octet_text(s: Seq<char>) -> bool {
    &&& 1 <= s.len() <= 3
    &&& (forall|i: int| 0 <= i < s.len() ==> is_ascii_digit(#[trigger] s[i]))
    &&& dec_value(s) <= 255
    &&& (s.len() > 1 ==> s[0] != '0')
}

/// Dots at `p1 < p2 < p3` cut `s` into four octet texts.
pub open spec fn ipv4_split(s: Seq<char>, p1: int, p2: int, p3: int) -> bool {
    &&& 0 <= p1 < p2 < p3 < s.len()
    &&& s[p1] == '.' && s[p2] == '.' && s[p3] == '.'
    &&& is_octet_text(s.subrange(0, p1))
    &&& is_octet_text(s.subrange(p1 + 1, p2))
    &&& is_octet_text(s.subrange(p2 + 1, p3))
    &&& is_octet_text(s.subrange(p3 + 1, s.len() as int))
}

/// `s` is the dotted-decimal text of an IPv4 address.
pub open spec fn is_ipv4_text(s: Seq<char>) -> bool {
    exists|p1: int, p2: int, p3: int| ipv4_split(s, p1, p2, p3)
}

/// The address a split reads.
pub open spec fn split_value(s: Seq<char>, p1: int, p2: int, p3: int) -> Ipv4Address {
    Ipv4Address {
        octet0: dec_value(s.subrange(0, p1)) as u8,
        octet1: dec_value(s.subrange(p1 + 1, p2)) as u8,
        octet2: dec_value(s.subrange(p2 + 1, p3)) as u8,
        octet3: dec_value(s.subrange(p3 + 1, s.len() as int)) as u8,
    }
}

/// A digit string's value is bounded by its length.
proof fn lemma_dec_value_bounds(s: Seq<char>)
    requires
        forall|i: int| 0 <= i < s.len() ==> is_ascii_digit(#[trigger] s[i]),
    ensures
        0 <= dec_value(s),
        s.len() == 1 ==> dec_value(s) < 10,
        s.len() == 2 ==> dec_value(s) < 100,
        s.len() == 3 ==> dec_value(s) < 1000,
    decreases s.len(),
{
    if s.len() > 0 {
        let d = s.drop_last();
        assert(forall|i: int| 0 <= i < d.len() ==> #[trigger] d[i] == s[i]);
        lemma_dec_value_bounds(d);
    }
}

/// In a valid split, the dots stand exactly at the three cut positions.
proof fn lemma_split_dots(s: Seq<char>, p1: int, p2: int, p3: int)
    requires
        ipv4_split(s, p1, p2, p3),
    ensures
        forall|x: int| 0 <= x < s.len() ==> ((#[trigger] s[x]) == '.' <==> (x == p1 || x == p2 || x
            == p3)),
{
    assert forall|x: int| 0 <= x < s.len() implies ((#[trigger] s[x]) == '.' <==> (x == p1 || x
        == p2 || x == p3)) by {
        if x != p1 && x != p2 && x != p3 {
            if x < p1 {
                assert(s.subrange(0, p1)[x] == s[x]);
                assert(is_ascii_digit(s[x]));
            } else if x < p2 {
                assert(s.subrange(p1 + 1, p2)[x - p1 - 1] == s[x]);
                assert(is_ascii_digit(s[x]));
            } else if x < p3 {
                assert(s.subrange(p2 + 1, p3)[x - p2 - 1] == s[x]);
                assert(is_ascii_digit(s[x]));
            } else {
                assert(s.subrange(p3 + 1, s.len() as int)[x - p3 - 1] == s[x]);
                assert(is_ascii_digit(s[x]));
            }
            assert('.' as u32 == 46);
            if s[x] == '.' {
                assert(s[x] as u32 == 46);
            }
        }
    }
}

/// Reads the octet text between `start` and `end`, if that is what
/// stands there.
fn parse_octet(s: &str, start: usize, end: usize) -> (r: Option<u8>)
    requires
        start <= end <= s@.len(),
    ensures
        r is Some <==> is_octet_text(s@.subrange(start as int, end as int)),
        r matches Some(v) ==> v as int == dec_value(s@.subrange(start as int, end as int)),
{
    let ghost seg = s@.subrange(start as int, end as int);
    let len = end - start;
    if len < 1 || len > 3 {
        return None;
    }
    let mut value: u32 = 0;
    let mut j: usize = start;
    while j < end
        invariant
            start <= j <= end <= s@.len(),
            seg == s@.subrange(start as int, end as int),
            1 <= end - start <= 3,
            forall|t: int| 0 <= t < j - start ==> is_ascii_digit(#[trigger] seg[t]),
            value == dec_value(seg.take(j - start)),
            value < 1000,
        decreases end - j,
    {
        let c = s.get_char(j);
        let cu = c as u32;
        proof {
            assert(seg[j - start] == s@[j as int]);
        }
        if cu < 48 || cu > 57 {
            proof {
                assert(!is_ascii_digit(seg[j - start]));
            }
            return None;
        }
        proof {
            assert(seg.take(j - start + 1).drop_last() =~= seg.take(j - start));
            assert(seg.take(j - start + 1).last() == seg[j - start]);
            lemma_dec_value_bounds(seg.take(j - start));
            assert(seg.take(j - start).len() <= 2);
        }
        value = value * 10 + (cu - 48);
        j = j + 1;
    }
    proof {
        assert(seg.take(end - start) =~= seg);
    }
    if len > 1 {
        let first = s.get_char(start);
        proof {
            assert(seg[0] == s@[start as int]);
        }
        if first == '0' {
            return None;
        }
    }
    if value > 255 {
        return None;
    }
    Some(value as u8)
}

/// Reads a dotted-decimal IPv4 address out of `s`: four octets of one
/// to three digits each, none above 255, none with a leading zero,
/// separated by single dots and nothing else.
pub fn parse_ipv4(s: &str) -> (r: Option<Ipv4Address>)
    ensures
        r is Some <==> is_ipv4_text(s@),
        forall|p1: int, p2: int, p3: int|
            ipv4_split(s@, p1, p2, p3) ==> r == Some(split_value(s@, p1, p2, p3)),
{
    let n = s.unicode_len();
    let mut dots: Vec<usize> = Vec::new();
    let mut i: usize = 0;
    while i < n
        invariant
            n == s@.len(),
            i <= n,
            forall|t: int| 0 <= t < dots@.len() ==> (#[trigger] dots@[t]) < i,
            forall|a: int, b: int| 0 <= a < b < dots@.len() ==> (#[trigger] dots@[a]) < (
            #[trigger] dots@[b]),
            forall|x: int|
                0 <= x < i ==> (s@[x] == '.' <==> exists|t: int|
                    0 <= t < dots@.len() && (#[trigger] dots@[t]) == x),
        decreases n - i,
    {
        let c = s.get_char(i);
        if c == '.' {
            let ghost dots_before = dots@;
            dots.push(i);
            proof {
                assert forall|x: int|
                    0 <= x < i + 1 implies (s@[x] == '.' <==> exists|t: int|
                        0 <= t < dots@.len() && (#[trigger] dots@[t]) == x) by {
                    if x < i {
                        if s@[x] == '.' {
                            let t = choose|t: int|
                                0 <= t < dots_before.len() && (#[trigger] dots_before[t]) == x;
                            assert(dots@[t] == x);
                        } else {
                            if exists|t: int| 0 <= t < dots@.len() && (#[trigger] dots@[t]) == x {
                                let t = choose|t: int|
                                    0 <= t < dots@.len() && (#[trigger] dots@[t]) == x;
                                assert(t < dots_before.len());
                                assert(dots_before[t] == x);
                            }
                        }
                    } else {
                        assert(dots@[dots@.len() - 1] == x);
                    }
                }
            }
        } else {
            proof {
                assert forall|x: int|
                    0 <= x < i + 1 implies (s@[x] == '.' <==> exists|t: int|
                        0 <= t < dots@.len() && (#[trigger] dots@[t]) == x) by {
                    if x == i {
                        if exists|t: int| 0 <= t < dots@.len() && (#[trigger] dots@[t]) == x {
                            let t = choose|t: int|
                                0 <= t < dots@.len() && (#[trigger] dots@[t]) == x;
                            assert(dots@[t] < i);
                        }
                    }
                }
            }
        }
        i = i + 1;
    }
    if dots.len() != 3 {
        proof {
            if is_ipv4_text(s@) {
                let (p1, p2, p3) = choose|p1: int, p2: int, p3: int| ipv4_split(s@, p1, p2, p3);
                lemma_split_dots(s@, p1, p2, p3);
                assert(s@[p1] == '.' && s@[p2] == '.' && s@[p3] == '.');
                let t1 = choose|t: int| 0 <= t < dots@.len() && (#[trigger] dots@[t]) == p1;
                let t2 = choose|t: int| 0 <= t < dots@.len() && (#[trigger] dots@[t]) == p2;
                let t3 = choose|t: int| 0 <= t < dots@.len() && (#[trigger] dots@[t]) == p3;
                assert(t1 != t2 && t2 != t3 && t1 != t3);
                assert(dots@.len() >= 3) by {
                    if dots@.len() <= 2 {
                        assert(0 <= t1 < 3 && 0 <= t2 < 3 && 0 <= t3 < 3);
                    }
                }
                assert forall|t: int| 0 <= t < dots@.len() implies (#[trigger] dots@[t]) == p1
                    || dots@[t] == p2 || dots@[t] == p3 by {
                    assert(s@[dots@[t] as int] == '.');
                }
                if dots@.len() >= 4 {
                    assert(dots@[0] < dots@[1] < dots@[2] < dots@[3]);
                    assert(dots@[0] == p1);
                    assert(dots@[1] == p2);
                    assert(dots@[2] == p3);
                    assert(dots@[3] > p3);
                }
            }
        }
        return None;
    }
    let p1 = dots[0];
    let p2 = dots[1];
    let p3 = dots[2];
    proof {
        assert(dots@[0] < dots@[1] < dots@[2]);
        assert(s@[p1 as int] == '.' && s@[p2 as int] == '.' && s@[p3 as int] == '.');
        assert forall|q1: int, q2: int, q3: int| ipv4_split(s@, q1, q2, q3) implies q1 == p1 && q2
            == p2 && q3 == p3 by {
            lemma_split_dots(s@, q1, q2, q3);
            assert(s@[q1] == '.' && s@[q2] == '.' && s@[q3] == '.');
            let t1 = choose|t: int| 0 <= t < dots@.len() && (#[trigger] dots@[t]) == q1;
            let t2 = choose|t: int| 0 <= t < dots@.len() && (#[trigger] dots@[t]) == q2;
            let t3 = choose|t: int| 0 <= t < dots@.len() && (#[trigger] dots@[t]) == q3;
            assert(t1 < t2 < t3) by {
                if t1 >= t2 {
                    assert(dots@[t2] <= dots@[t1]);
                }
                if t2 >= t3 {
                    assert(dots@[t3] <= dots@[t2]);
                }
            }
            assert(t1 == 0 && t2 == 1 && t3 == 2);
        }
    }
    let o0 = match parse_octet(s, 0, p1) {
        Some(v) => v,
        None => {
            proof {
                lemma_no_split_when_octet_bad(s@, p1 as int, p2 as int, p3 as int);
            }
            return None;
        },
    };
    let o1 = match parse_octet(s, p1 + 1, p2) {
        Some(v) => v,
        None => {
            proof {
                lemma_no_split_when_octet_bad(s@, p1 as int, p2 as int, p3 as int);
            }
            return None;
        },
    };
    let o2 = match parse_octet(s, p2 + 1, p3) {
        Some(v) => v,
        None => {
            proof {
                lemma_no_split_when_octet_bad(s@, p1 as int, p2 as int, p3 as int);
            }
            return None;
        },
    };
    let o3 = match parse_octet(s, p3 + 1, n) {
        Some(v) => v,
        None => {
            proof {
                lemma_no_split_when_octet_bad(s@, p1 as int, p2 as int, p3 as int);
            }
            return None;
        },
    };
    proof {
        assert(ipv4_split(s@, p1 as int, p2 as int, p3 as int));
    }
    Some(Ipv4Address { octet0: o0, octet1: o1, octet2: o2, octet3: o3 })
}

/// When any split exists, it is the one at the given dots; so if one
/// of the four segments there is no octet text, no split exists.
proof fn lemma_no_split_when_octet_bad(s: Seq<char>, p1: int, p2: int, p3: int)
    requires
        forall|q1: int, q2: int, q3: int|
            ipv4_split(s, q1, q2, q3) ==> q1 == p1 && q2 == p2 && q3 == p3,
        !(ipv4_split(s, p1, p2, p3)),
    ensures
        !is_ipv4_text(s),
{
    if is_ipv4_text(s) {
        let (q1, q2, q3) = choose|q1: int, q2: int, q3: int| ipv4_split(s, q1, q2, q3);
        assert(q1 == p1 && q2 == p2 && q3 == p3);
    }
}

/// What the daemon reported for one running container.
pub enum InspectOutcome {
    /// The inspect RPC itself failed, with the daemon's message.
    Failed(String),
    /// The RPC succeeded: the container's address text on the run's
    /// network, when it has an entry there, and its port map, when the
    /// daemon listed ports — already converted, or the text that would
    /// not convert.
    Details { ip_text: Option<String>, ports: Option<Result<HostPortMappings, String>> },
}

/// The message reported when an inspect RPC failed.
pub open spec fn spec_inspect_error_msg(detail: Seq<char>) -> Seq<char> {
    "failed to inspect container: "@ + detail
}

fn inspect_error_message(detail: &String) -> (r: String)
    ensures
        r@ == spec_inspect_error_msg(detail@),
{
    let mut r = <String as StringExecFns>::from_str("failed to inspect container: ");
    r.append(detail.as_str());
    r
}

/// How many of the first `i` slots are running.
pub open spec fn running_count(kept: Seq<Transitional>, i: int) -> int
    decreases i,
{
    if i <= 0 {
        0
    } else {
        running_count(kept, i - 1) + (if kept[i - 1] is Running {
            1int
        } else {
            0int
        })
    }
}

/// The errors a report list owes, as `(is daemon error, message)`
/// views, in report order: a failed inspect owes a daemon error; a
/// port map that would not convert owes a host-port error.
pub open spec fn spec_inspect_error_views(rs: Seq<InspectOutcome>) -> Seq<(bool, Seq<char>)>
    decreases rs.len(),
{
    if rs.len() == 0 {
        Seq::empty()
    } else {
        let rest = spec_inspect_error_views(rs.drop_last());
        match rs.last() {
            InspectOutcome::Failed(d) => rest.push((true, spec_inspect_error_msg(d@))),
            InspectOutcome::Details { ip_text: _, ports } => match ports {
                Some(Err(d)) => rest.push((false, d@)),
                _ => rest,
            },
        }
    }
}

/// How one report rewrites one running slot: a failed inspect leaves
/// it as it was; a successful one sets the address — parsed from the
/// network entry, `0.0.0.0` when absent or unparsable, `127.0.0.1` on
/// a windows host regardless — and the port map, which an absent entry
/// leaves empty and a malformed one leaves untouched.
pub open spec fn slot_inspected(
    oldt: Transitional,
    newt: Transitional,
    rep: InspectOutcome,
    windows_host: bool,
) -> bool {
    match rep {
        InspectOutcome::Failed(_) => newt == oldt,
        InspectOutcome::Details { ip_text, ports } => {
            &&& oldt is Running
            &&& newt is Running
            &&& {
                let oc = oldt->Running_0;
                let nc = newt->Running_0;
                &&& nc.id == oc.id
                &&& nc.name == oc.name
                &&& nc.handle == oc.handle
                &&& nc.is_static == oc.is_static
                &&& nc.log_options == oc.log_options
                &&& (windows_host ==> nc.ip == (Ipv4Address {
                    octet0: 127,
                    octet1: 0,
                    octet2: 0,
                    octet3: 1,
                }))
                &&& (!windows_host ==> match ip_text {
                    None => nc.ip == (Ipv4Address { octet0: 0, octet1: 0, octet2: 0, octet3: 0 }),
                    Some(t) => {
                        &&& (!is_ipv4_text(t@) ==> nc.ip == (Ipv4Address {
                            octet0: 0,
                            octet1: 0,
                            octet2: 0,
                            octet3: 0,
                        }))
                        &&& (forall|p1: int, p2: int, p3: int|
                            ipv4_split(t@, p1, p2, p3) ==> nc.ip == split_value(t@, p1, p2, p3))
                    },
                })
                &&& (match ports {
                    None => nc.ports.mappings@ == Seq::<crate::container::PortMapping>::empty(),
                    Some(Ok(p)) => nc.ports == p,
                    Some(Err(_)) => nc.ports == oc.ports,
                })
            }
        },
    }
}

impl Engine<Orbiting> {
    /// Applies the daemon's inspection reports to the running slots:
    /// the first report to the first running slot in kept order, and so
    /// on. Failures — a failed inspect, a malformed port map — are
    /// collected, and every remaining container is still inspected; the
    /// result is the collected errors, in report order, if there were
    /// any. Slots that are not running, and running slots beyond the
    /// last report, keep their data.
    pub fn inspect(&mut self, reports: Vec<InspectOutcome>, windows_host: bool) -> (r:
        Result<(), Vec<DockerTestError>>)
        ensures
            final(self).keeper == old(self).keeper,
            final(self).phase.kept@.len() == old(self).phase.kept@.len(),
            forall|j: int|
                0 <= j < old(self).phase.kept@.len() && !((#[trigger] old(self).phase.kept@[j])
                    is Running) ==> final(self).phase.kept@[j] == old(self).phase.kept@[j],
            forall|j: int|
                0 <= j < old(self).phase.kept@.len() && (#[trigger] old(self).phase.kept@[j])
                    is Running && running_count(old(self).phase.kept@, j) >= reports@.len()
                    ==> final(self).phase.kept@[j] == old(self).phase.kept@[j],
            forall|j: int|
                0 <= j < old(self).phase.kept@.len() && (#[trigger] old(self).phase.kept@[j])
                    is Running && running_count(old(self).phase.kept@, j) < reports@.len()
                    ==> slot_inspected(
                    old(self).phase.kept@[j],
                    final(self).phase.kept@[j],
                    reports@[running_count(old(self).phase.kept@, j)],
                    windows_host,
                ),
            ({
                let consumed = if running_count(old(self).phase.kept@, old(self).phase.kept@.len() as int)
                    < reports@.len() {
                    running_count(old(self).phase.kept@, old(self).phase.kept@.len() as int)
                } else {
                    reports@.len() as int
                };
                let owed = spec_inspect_error_views(reports@.take(consumed));
                match r {
                    Ok(()) => owed.len() == 0,
                    Err(errors) => {
                        &&& errors@.len() == owed.len()
                        &&& owed.len() > 0
                        &&& forall|e: int|
                            0 <= e < owed.len() ==> {
                                let err = #[trigger] errors@[e];
                                &&& (owed[e].0 ==> err is Daemon)
                                &&& (!owed[e].0 ==> err is HostPort)
                                &&& err.spec_message() == owed[e].1
                            }
                    },
                }
            }),
    {
        let ghost kept0 = self.phase.kept@;
        let ghost reports0 = reports@;
        let mut reports = reports;
        let mut errors: Vec<DockerTestError> = Vec::new();
        let n = self.phase.kept.len();
        let mut i: usize = 0;
        let ghost mut consumed: int = 0;
        while i < n
            invariant
                self.keeper == old(self).keeper,
                kept0 == old(self).phase.kept@,
                n == self.phase.kept@.len(),
                n == kept0.len(),
                i <= n,
                0 <= consumed <= reports0.len(),
                consumed == if running_count(kept0, i as int) < reports0.len() {
                    running_count(kept0, i as int)
                } else {
                    reports0.len() as int
                },
                reports@ =~= reports0.skip(consumed),
                forall|j: int| i <= j < n ==> #[trigger] self.phase.kept@[j] == kept0[j],
                forall|j: int|
                    0 <= j < i && !((#[trigger] kept0[j]) is Running) ==> self.phase.kept@[j]
                        == kept0[j],
                forall|j: int|
                    0 <= j < i && (#[trigger] kept0[j]) is Running && running_count(kept0, j)
                        >= reports0.len() ==> self.phase.kept@[j] == kept0[j],
                forall|j: int|
                    0 <= j < i && (#[trigger] kept0[j]) is Running && running_count(kept0, j)
                        < reports0.len() ==> slot_inspected(
                        kept0[j],
                        self.phase.kept@[j],
                        reports0[running_count(kept0, j)],
                        windows_host,
                    ),
                errors@.len() == spec_inspect_error_views(reports0.take(consumed)).len(),
                forall|e: int|
                    0 <= e < errors@.len() ==> {
                        let owed = spec_inspect_error_views(reports0.take(consumed));
                        let err = #[trigger] errors@[e];
                        &&& (owed[e].0 ==> err is Daemon)
                        &&& (!owed[e].0 ==> err is HostPort)
                        &&& err.spec_message() == owed[e].1
                    },
            decreases n - i,
        {
            proof {
                assert(running_count(kept0, i as int + 1) == running_count(kept0, i as int) + (
                if kept0[i as int] is Running {
                    1int
                } else {
                    0int
                }));
            }
            let is_running = match &self.phase.kept[i] {
                Transitional::Running(_) => true,
                _ => false,
            };
            if !is_running {
                i = i + 1;
                continue;
            }
            if reports.len() == 0 {
                // Out of reports: this and every later running slot
                // keeps its data.
                proof {
                    assert(reports0.skip(consumed).len() == 0);
                    assert(consumed == reports0.len());
                    assert(running_count(kept0, i as int) >= reports0.len());
                }
                i = i + 1;
                continue;
            }
            proof {
                assert(reports0.skip(consumed)[0] == reports0[consumed]);
                assert(running_count(kept0, i as int) == consumed);
                assert(reports0.take(consumed + 1).drop_last() =~= reports0.take(
                    consumed,
                ));
                assert(reports0.take(consumed + 1).last() == reports0[consumed]);
            }
            let report = reports.remove(0);
            proof {
                assert(reports@ =~= reports0.skip(consumed + 1));
                assert(report == reports0[consumed]);
            }
            match report {
                InspectOutcome::Failed(detail) => {
                    errors.push(DockerTestError::Daemon(inspect_error_message(&detail)));
                },
                InspectOutcome::Details { ip_text, ports } => {
                    let ip = if windows_host {
                        Ipv4Address::localhost()
                    } else {
                        match &ip_text {
                            Some(t) => match parse_ipv4(t.as_str()) {
                                Some(a) => a,
                                None => Ipv4Address::unspecified(),
                            },
                            None => Ipv4Address::unspecified(),
                        }
                    };
                    let mut ports_update: Option<HostPortMappings> = None;
                    match ports {
                        None => {
                            ports_update = Some(HostPortMappings::new());
                        },
                        Some(Ok(p)) => {
                            ports_update = Some(p);
                        },
                        Some(Err(detail)) => {
                            errors.push(DockerTestError::HostPort(detail));
                        },
                    }
                    let mut slot = Transitional::Sentinel;
                    core::mem::swap(&mut self.phase.kept[i], &mut slot);
                    match slot {
                        Transitional::Running(c) => {
                            let mut c = c;
                            c.ip = ip;
                            match ports_update {
                                Some(p) => {
                                    c.ports = p;
                                },
                                None => {},
                            }
                            self.phase.kept[i] = Transitional::Running(c);
                        },
                        other => {
                            self.phase.kept[i] = other;
                        },
                    }
                },
            }
            proof {
                assert(consumed < reports0.len());
                consumed = consumed + 1;
            }
            i = i + 1;
        }
        proof {
            assert(running_count(kept0, n as int) == running_count(kept0, n as int));
        }
        if errors.len() == 0 {
            Ok(())
        } else {
            Err(errors)
        }
    }
}

} // verus!
