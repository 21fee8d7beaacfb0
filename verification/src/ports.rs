//! Port correlation: grouping listening sockets by owning pid with
//! dual-stack deduplication, and expanding process samples into one
//! record per owned (port, protocol) pair.

use std::collections::HashMap;
use vstd::prelude::*;

use crate::filter::{filter_view, keeps_record, matches_filter};
use crate::record::{ProcessInfo, Protocol};

verus! {

broadcast use vstd::std_specs::hash::group_hash_axioms;

/// One listening socket as the OS reports it: the owning pid, the
/// bound port, and the transport protocol.
#[derive(Clone, Copy, PartialEq, Eq, Structural, Debug)]
pub struct ListenEntry {
    pub pid: u32,
    pub port: u16,
    pub protocol: Protocol,
}

/// A (port, protocol) pair occurs in the sequence.
pub open spec fn has_pair(s: Seq<(u16, Protocol)>, port: u16, proto: Protocol) -> bool {
    exists|t: int| 0 <= t < s.len() && #[trigger] s[t] == (port, proto)
}

/// The pid-to-ports mapping that a sequence of listener reports
/// builds: entries grouped by pid in report order, and a pair already
/// present for its pid — the same socket seen again over the other IP
/// stack — is dropped.
pub open spec fn port_map_spec(l: Seq<ListenEntry>) -> Map<u32, Seq<(u16, Protocol)>>
    decreases l.len(),
{
    if l.len() == 0 {
        Map::empty()
    } else {
        let m0 = port_map_spec(l.drop_last());
        let e = l.last();
        let cur = if m0.dom().contains(e.pid) {
            m0[e.pid]
        } else {
            Seq::empty()
        };
        if has_pair(cur, e.port, e.protocol) {
            m0
        } else {
            m0.insert(e.pid, cur.push((e.port, e.protocol)))
        }
    }
}

/// The abstract contents of the executable map.
pub open spec fn view_of_map(m: Map<u32, Vec<(u16, Protocol)>>) -> Map<u32, Seq<(u16, Protocol)>> {
    Map::new(|k: u32| m.dom().contains(k), |k: u32| m[k]@)
}

/// No (port, protocol) pair occurs twice.
pub open spec fn distinct_pairs(s: Seq<(u16, Protocol)>) -> bool {
    forall|i: int, j: int| 0 <= i < j < s.len() ==> #[trigger] s[i] != #[trigger] s[j]
}

/// Deduplication: whatever the listener reports were, no pid maps to
/// the same (port, protocol) pair twice.
pub proof fn lemma_port_map_dedup(l: Seq<ListenEntry>, pid: u32)
    ensures
        port_map_spec(l).dom().contains(pid) ==> distinct_pairs(port_map_spec(l)[pid]),
    decreases l.len(),
{
    if l.len() == 0 {
    } else {
        let m0 = port_map_spec(l.drop_last());
        let e = l.last();
        lemma_port_map_dedup(l.drop_last(), pid);
        let cur = if m0.dom().contains(e.pid) {
            m0[e.pid]
        } else {
            Seq::<(u16, Protocol)>::empty()
        };
        if !has_pair(cur, e.port, e.protocol) && e.pid == pid {
            let s = cur.push((e.port, e.protocol));
            assert forall|i: int, j: int| 0 <= i < j < s.len() implies #[trigger] s[i]
                != #[trigger] s[j] by {
                if j == s.len() - 1 {
                    assert(s[i] == cur[i]);
                    assert(!(cur[i] == (e.port, e.protocol)));
                }
            }
        }
    }
}

/// No report is lost: every reported (port, protocol) pair stands in
/// the mapped sequence of its pid. With the deduplication above, a
/// pair reported twice stands there exactly once.
pub proof fn lemma_port_map_complete(l: Seq<ListenEntry>, i: int)
    requires
        0 <= i < l.len(),
    ensures
        port_map_spec(l).dom().contains(l[i].pid),
        has_pair(port_map_spec(l)[l[i].pid], l[i].port, l[i].protocol),
    decreases l.len(),
{
    let e = l[i];
    let m0 = port_map_spec(l.drop_last());
    let last = l.last();
    let cur = if m0.dom().contains(last.pid) {
        m0[last.pid]
    } else {
        Seq::<(u16, Protocol)>::empty()
    };
    if i == l.len() - 1 {
        if has_pair(cur, last.port, last.protocol) {
            assert(cur.len() > 0);
            assert(m0.dom().contains(last.pid));
        } else {
            let s = cur.push((last.port, last.protocol));
            assert(s[s.len() - 1] == (last.port, last.protocol));
        }
    } else {
        lemma_port_map_complete(l.drop_last(), i);
        assert(l.drop_last()[i] == e);
        if !has_pair(cur, last.port, last.protocol) && last.pid == e.pid {
            let s = cur.push((last.port, last.protocol));
            let t = choose|t: int|
                0 <= t < m0[e.pid].len() && #[trigger] m0[e.pid][t] == (e.port, e.protocol);
            assert(s[t] == (e.port, e.protocol));
        }
    }
}

/// Group the listener reports by pid, dropping a (port, protocol)
/// pair its pid already holds.
pub fn build_port_map(listeners: &Vec<ListenEntry>) -> (m: HashMap<u32, Vec<(u16, Protocol)>>)
    ensures
        view_of_map(m@) == port_map_spec(listeners@),
{
    let mut m: HashMap<u32, Vec<(u16, Protocol)>> = HashMap::new();
    proof {
        assert(view_of_map(m@) =~~= port_map_spec(listeners@.take(0)));
    }
    let mut i: usize = 0;
    while i < listeners.len()
        invariant
            i <= listeners@.len(),
            view_of_map(m@) == port_map_spec(listeners@.take(i as int)),
        decreases listeners@.len() - i,
    {
        let ghost m0 = view_of_map(m@);
        let e = listeners[i];
        let mut cur: Vec<(u16, Protocol)> = match m.remove(&e.pid) {
            Option::Some(v) => v,
            Option::None => Vec::new(),
        };
        let ghost cur0 = cur@;
        proof {
            if m0.dom().contains(e.pid) {
                assert(cur@ == m0[e.pid]);
            } else {
                assert(cur@ =~= Seq::<(u16, Protocol)>::empty());
            }
        }
        let mut dup = false;
        let mut j: usize = 0;
        while j < cur.len()
            invariant
                j <= cur@.len(),
                dup == exists|t: int| 0 <= t < j && #[trigger] cur@[t] == (e.port, e.protocol),
            decreases cur@.len() - j,
        {
            let pair = cur[j];
            if pair.0 == e.port && pair.1 == e.protocol {
                proof {
                    assert(cur@[j as int] == (e.port, e.protocol));
                }
                dup = true;
            }
            j = j + 1;
        }
        proof {
            assert(dup == has_pair(cur0, e.port, e.protocol));
        }
        if !dup {
            cur.push((e.port, e.protocol));
        }
        m.insert(e.pid, cur);
        proof {
            assert(listeners@.take(i + 1).drop_last() =~= listeners@.take(i as int));
            assert(listeners@.take(i + 1).last() == listeners@[i as int]);
            assert(view_of_map(m@) =~~= port_map_spec(listeners@.take(i + 1)));
        }
        i = i + 1;
    }
    proof {
        assert(listeners@.take(listeners@.len() as int) =~= listeners@);
    }
    m
}

/// Whether a port passes the optional exact port filter.
pub open spec fn keep_port(pf: Option<u16>, port: u16) -> bool {
    match pf {
        Option::None => true,
        Option::Some(t) => port == t,
    }
}

/// The sample dressed with one of its ports.
pub open spec fn apply_port(p: ProcessInfo, port: u16, proto: Protocol) -> ProcessInfo {
    ProcessInfo {
        pid: p.pid,
        name: p.name,
        cpu_tenths: p.cpu_tenths,
        memory: p.memory,
        port: Option::Some(port),
        protocol: Option::Some(proto),
    }
}

/// One record per owned pair that passes the port filter, in the
/// order the pairs were first reported.
pub open spec fn expand_ports(p: ProcessInfo, ports: Seq<(u16, Protocol)>, pf: Option<u16>) -> Seq<
    ProcessInfo,
>
    decreases ports.len(),
{
    if ports.len() == 0 {
        Seq::empty()
    } else {
        expand_ports(p, ports.drop_last(), pf) + (if keep_port(pf, ports.last().0) {
            seq![apply_port(p, ports.last().0, ports.last().1)]
        } else {
            Seq::empty()
        })
    }
}

/// What one sample contributes: nothing unless its pid owns a
/// listening port and its name passes the filter; otherwise one
/// record per surviving pair.
pub open spec fn sample_rows(
    p: ProcessInfo,
    m: Map<u32, Seq<(u16, Protocol)>>,
    f: Option<Seq<char>>,
    pf: Option<u16>,
) -> Seq<ProcessInfo> {
    if m.dom().contains(p.pid) && keeps_record(p, f) {
        expand_ports(p, m[p.pid], pf)
    } else {
        Seq::empty()
    }
}

/// All the port-mode records of a sample sequence, in sample order.
pub open spec fn with_ports(
    s: Seq<ProcessInfo>,
    m: Map<u32, Seq<(u16, Protocol)>>,
    f: Option<Seq<char>>,
    pf: Option<u16>,
) -> Seq<ProcessInfo>
    decreases s.len(),
{
    if s.len() == 0 {
        Seq::empty()
    } else {
        with_ports(s.drop_last(), m, f, pf) + sample_rows(s.last(), m, f, pf)
    }
}

/// Every row of an expansion carries one of the sample's ports that
/// passed the port filter, and the sample's own pid, name and figures.
proof fn lemma_expand_ports_rows(p: ProcessInfo, ports: Seq<(u16, Protocol)>, pf: Option<u16>)
    ensures
        forall|i: int|
            0 <= i < expand_ports(p, ports, pf).len() ==> {
                let r = #[trigger] expand_ports(p, ports, pf)[i];
                &&& r.port is Some
                &&& keep_port(pf, r.port->0)
                &&& r.pid == p.pid
                &&& r.name == p.name
                &&& r.cpu_tenths == p.cpu_tenths
                &&& r.memory == p.memory
                &&& r.protocol is Some
            },
    decreases ports.len(),
{
    if ports.len() > 0 {
        lemma_expand_ports_rows(p, ports.drop_last(), pf);
    }
}

/// A row and the sample it was cut from: the sample owned a listening
/// port, passed the name filter, and gave the row its pid, name and
/// figures.
pub open spec fn row_of_sample(
    p: ProcessInfo,
    r: ProcessInfo,
    m: Map<u32, Seq<(u16, Protocol)>>,
    f: Option<Seq<char>>,
) -> bool {
    &&& m.dom().contains(p.pid)
    &&& keeps_record(p, f)
    &&& r.pid == p.pid
    &&& r.name == p.name
    &&& r.cpu_tenths == p.cpu_tenths
    &&& r.memory == p.memory
}

/// Port-mode filtering selects, never invents: every row in the result
/// carries a port that passes the port filter and comes from an input
/// sample that owned a listening port and passed the name filter.
pub proof fn lemma_with_ports_sound(
    s: Seq<ProcessInfo>,
    m: Map<u32, Seq<(u16, Protocol)>>,
    f: Option<Seq<char>>,
    pf: Option<u16>,
)
    ensures
        forall|i: int|
            0 <= i < with_ports(s, m, f, pf).len() ==> {
                let r = #[trigger] with_ports(s, m, f, pf)[i];
                &&& r.port is Some
                &&& keep_port(pf, r.port->0)
                &&& exists|j: int| 0 <= j < s.len() && row_of_sample(#[trigger] s[j], r, m, f)
            },
    decreases s.len(),
{
    if s.len() > 0 {
        let dl = s.drop_last();
        lemma_with_ports_sound(dl, m, f, pf);
        lemma_expand_ports_rows(s.last(), if m.dom().contains(s.last().pid) {
            m[s.last().pid]
        } else {
            Seq::empty()
        }, pf);
        let whole = with_ports(s, m, f, pf);
        let prefix = with_ports(dl, m, f, pf);
        assert forall|i: int| 0 <= i < whole.len() implies {
            let r = #[trigger] whole[i];
            &&& r.port is Some
            &&& keep_port(pf, r.port->0)
            &&& exists|j: int| 0 <= j < s.len() && row_of_sample(#[trigger] s[j], r, m, f)
        } by {
            let r = whole[i];
            if i < prefix.len() {
                assert(prefix[i] == r);
                let j = choose|j: int| 0 <= j < dl.len() && row_of_sample(#[trigger] dl[j], r, m, f);
                assert(dl[j] == s[j]);
                assert(row_of_sample(s[j], r, m, f));
            } else {
                assert(r == sample_rows(s.last(), m, f, pf)[i - prefix.len()]);
                assert(s[s.len() - 1] == s.last());
                assert(row_of_sample(s[s.len() - 1], r, m, f));
            }
        }
    }
}

/// Build the port-mode record list: a process absent from the port
/// mapping is skipped entirely, the name filter is applied once per
/// process, and each owned (port, protocol) pair that passes the
/// port filter becomes one record carrying the process's sample.
pub fn build_records_with_ports(
    samples: Vec<ProcessInfo>,
    port_map: &HashMap<u32, Vec<(u16, Protocol)>>,
    filter: &Option<String>,
    port_filter: Option<u16>,
) -> (r: Vec<ProcessInfo>)
    ensures
        r@ == with_ports(samples@, view_of_map(port_map@), filter_view(*filter), port_filter),
{
    let ghost bigm = view_of_map(port_map@);
    let ghost fv = filter_view(*filter);
    let mut r: Vec<ProcessInfo> = Vec::new();
    let mut i: usize = 0;
    while i < samples.len()
        invariant
            i <= samples@.len(),
            bigm == view_of_map(port_map@),
            fv == filter_view(*filter),
            r@ == with_ports(samples@.take(i as int), bigm, fv, port_filter),
        decreases samples@.len() - i,
    {
        let ghost samp = samples@[i as int];
        let ghost before = r@;
        let p = &samples[i];
        match port_map.get(&p.pid) {
            Option::None => {
                proof {
                    assert(!bigm.dom().contains(samp.pid));
                    assert(sample_rows(samp, bigm, fv, port_filter) =~= Seq::<ProcessInfo>::empty());
                }
            },
            Option::Some(plist) => {
                proof {
                    assert(bigm.dom().contains(samp.pid));
                    assert(plist@ == bigm[samp.pid]);
                }
                let keep = match filter {
                    Option::None => true,
                    Option::Some(f) => matches_filter(p.name.as_str(), f.as_str()),
                };
                if keep {
                    proof {
                        assert(keeps_record(samp, fv));
                    }
                    let mut j: usize = 0;
                    while j < plist.len()
                        invariant
                            j <= plist@.len(),
                            i < samples@.len(),
                            samp == samples@[i as int],
                            p == &samples[i as int],
                            plist@ == bigm[samp.pid],
                            r@ == before + expand_ports(samp, plist@.take(j as int), port_filter),
                        decreases plist@.len() - j,
                    {
                        let pair = plist[j];
                        let emit = match port_filter {
                            Option::None => true,
                            Option::Some(t) => pair.0 == t,
                        };
                        if emit {
                            r.push(
                                ProcessInfo {
                                    pid: p.pid,
                                    name: p.name.clone(),
                                    cpu_tenths: p.cpu_tenths,
                                    memory: p.memory,
                                    port: Some(pair.0),
                                    protocol: Some(pair.1),
                                },
                            );
                            proof {
                                assert(r@.last() == apply_port(samp, pair.0, pair.1));
                            }
                        }
                        proof {
                            assert(plist@.take(j + 1).drop_last() =~= plist@.take(j as int));
                            assert(plist@.take(j + 1).last() == plist@[j as int]);
                            assert(r@ =~= before + expand_ports(
                                samp,
                                plist@.take(j + 1),
                                port_filter,
                            ));
                        }
                        j = j + 1;
                    }
                    proof {
                        assert(plist@.take(plist@.len() as int) =~= plist@);
                        assert(r@ == before + sample_rows(samp, bigm, fv, port_filter));
                    }
                } else {
                    proof {
                        assert(!keeps_record(samp, fv));
                        assert(sample_rows(samp, bigm, fv, port_filter) =~= Seq::<
                            ProcessInfo,
                        >::empty());
                    }
                }
            },
        }
        proof {
            assert(samples@.take(i + 1).drop_last() =~= samples@.take(i as int));
            assert(samples@.take(i + 1).last() == samples@[i as int]);
            assert(r@ =~= before + sample_rows(samp, bigm, fv, port_filter));
            assert(r@ == with_ports(samples@.take(i + 1), bigm, fv, port_filter));
        }
        i = i + 1;
    }
    proof {
        assert(samples@.take(samples@.len() as int) =~= samples@);
    }
    r
}

} // verus!
