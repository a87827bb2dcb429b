//! Which forwarding workers a relay instance starts.
use vstd::prelude::*;
use crate::endpoint::EndpointInfo;

verus! {

#[derive(PartialEq, Eq, Structural, Clone, Copy, Debug)]
pub enum Worker {
    Udp,
    Tcp,
}

/// One worker to spawn: its kind and the index of the endpoint it serves.
#[derive(PartialEq, Eq, Structural, Clone, Copy, Debug)]
pub struct Task {
    pub endpoint: usize,
    pub worker: Worker,
}

/// The tasks for the endpoint at index `i`: a UDP worker if UDP is on,
/// then a TCP worker unless TCP is off.
pub open spec fn tasks_for(i: nat, use_udp: bool, no_tcp: bool) -> Seq<Task> {
    let udp = if use_udp {
        seq![Task { endpoint: i as usize, worker: Worker::Udp }]
    } else {
        Seq::empty()
    };
    let tcp = if !no_tcp {
        seq![Task { endpoint: i as usize, worker: Worker::Tcp }]
    } else {
        Seq::empty()
    };
    udp + tcp
}

/// All tasks for `eps`, endpoint by endpoint.
pub open spec fn plan(eps: Seq<EndpointInfo>) -> Seq<Task>
    decreases eps.len(),
{
    if eps.len() == 0 {
        Seq::empty()
    } else {
        let i = (eps.len() - 1) as nat;
        plan(eps.drop_last()) + tasks_for(i, eps.last().use_udp, eps.last().no_tcp)
    }
}

/// The workers that running `endpoints` spawns, in spawn order. Every one
/// of them is awaited; none is cancelled when another ends.
pub fn plan_workers(endpoints: &Vec<EndpointInfo>) -> (r: Vec<Task>)
    ensures
        r@ == plan(endpoints@),
{
    let mut out: Vec<Task> = Vec::new();
    let mut i: usize = 0;
    while i < endpoints.len()
        invariant
            i <= endpoints@.len(),
            out@ == plan(endpoints@.subrange(0, i as int)),
        decreases endpoints@.len() - i,
    {
        let e = &endpoints[i];
        if e.use_udp {
            out.push(Task { endpoint: i, worker: Worker::Udp });
        }
        if !e.no_tcp {
            out.push(Task { endpoint: i, worker: Worker::Tcp });
        }
        assert(endpoints@.subrange(0, i + 1).drop_last() =~= endpoints@.subrange(0, i as int));
        assert(out@ =~= plan(endpoints@.subrange(0, i + 1)));
        i = i + 1;
    }
    assert(endpoints@.subrange(0, i as int) =~= endpoints@);
    out
}

} // verus!
