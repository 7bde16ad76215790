//! The streaming bulk loader.
//!
//! Each entity encodes to one bulk row independently (`row_bytes`), so a
//! caller can stream arbitrarily many records with memory bounded by one
//! record.  These helpers drive a whole in-memory batch: rows of the fit
//! records are appended in order, and the index of every unfit record is
//! routed to the error sink instead of aborting the batch.

use vstd::prelude::*;
use crate::entity::{Address, Network, AddressV, NetworkV, addr_wf, net_wf, address_row, network_row};
use crate::conflate::addrs_view;
use crate::hexcodec::lines_view;
use crate::textutil::push_all;

verus! {

/// The rows of the fit addresses, in order.
pub open spec fn addr_rows(s: Seq<AddressV>) -> Seq<u8>
    decreases s.len(),
{
    if s.len() == 0 {
        Seq::empty()
    } else {
        addr_rows(s.drop_last()) + (if addr_wf(s.last()) {
            address_row(s.last())
        } else {
            Seq::empty()
        })
    }
}

/// The indices of the unfit addresses, in order.
pub open spec fn addr_errors(s: Seq<AddressV>) -> Seq<usize>
    decreases s.len(),
{
    if s.len() == 0 {
        Seq::empty()
    } else {
        addr_errors(s.drop_last()) + (if addr_wf(s.last()) {
            Seq::empty()
        } else {
            seq![(s.len() - 1) as usize]
        })
    }
}

/// View of a sequence of networks.
pub open spec fn nets_view(v: Seq<Network>) -> Seq<NetworkV> {
    Seq::new(v.len(), |i: int| v[i]@)
}

/// The rows of the fit networks, in order.
pub open spec fn net_rows(s: Seq<NetworkV>) -> Seq<u8>
    decreases s.len(),
{
    if s.len() == 0 {
        Seq::empty()
    } else {
        net_rows(s.drop_last()) + (if net_wf(s.last()) {
            network_row(s.last())
        } else {
            Seq::empty()
        })
    }
}

/// The indices of the unfit networks, in order.
pub open spec fn net_errors(s: Seq<NetworkV>) -> Seq<usize>
    decreases s.len(),
{
    if s.len() == 0 {
        Seq::empty()
    } else {
        net_errors(s.drop_last()) + (if net_wf(s.last()) {
            Seq::empty()
        } else {
            seq![(s.len() - 1) as usize]
        })
    }
}

/// Stream a batch of addresses into the row sink; route unfit records,
/// by index, to the error sink and continue.
#[verifier::loop_isolation(false)]
pub fn load_addresses(addrs: &Vec<Address>, out: &mut Vec<u8>, errors: &mut Vec<usize>)
    ensures
        final(out)@ == old(out)@ + addr_rows(addrs_view(addrs@)),
        final(errors)@ == old(errors)@ + addr_errors(addrs_view(addrs@)),
{
    let ghost av = addrs_view(addrs@);
    let mut i: usize = 0;
    proof {
        assert(av.subrange(0, 0) =~= Seq::<AddressV>::empty());
        assert(out@ =~= old(out)@ + addr_rows(av.subrange(0, 0)));
        assert(errors@ =~= old(errors)@ + addr_errors(av.subrange(0, 0)));
    }
    while i < addrs.len()
        invariant
            i <= addrs@.len(),
            out@ == old(out)@ + addr_rows(av.subrange(0, i as int)),
            errors@ == old(errors)@ + addr_errors(av.subrange(0, i as int)),
        decreases addrs@.len() - i,
    {
        proof {
            let pre = av.subrange(0, i as int);
            let cur = av.subrange(0, i + 1);
            assert(cur.drop_last() =~= pre);
            assert(cur.last() == av[i as int]);
        }
        if addrs[i].wf_exec() {
            let row = addrs[i].row_bytes();
            push_all(out, &row);
            assert(out@ =~= old(out)@ + addr_rows(av.subrange(0, i + 1)));
            assert(errors@ =~= old(errors)@ + addr_errors(av.subrange(0, i + 1)));
        } else {
            errors.push(i);
            assert(out@ =~= old(out)@ + addr_rows(av.subrange(0, i + 1)));
            assert(errors@ =~= old(errors)@ + addr_errors(av.subrange(0, i + 1)));
        }
        i = i + 1;
    }
    proof {
        assert(av.subrange(0, addrs@.len() as int) =~= av);
    }
}

/// Stream a batch of networks into the row sink; route unfit records,
/// by index, to the error sink and continue.
#[verifier::loop_isolation(false)]
pub fn load_networks(nets: &Vec<Network>, out: &mut Vec<u8>, errors: &mut Vec<usize>)
    ensures
        final(out)@ == old(out)@ + net_rows(nets_view(nets@)),
        final(errors)@ == old(errors)@ + net_errors(nets_view(nets@)),
{
    let ghost nv = nets_view(nets@);
    let mut i: usize = 0;
    proof {
        assert(nv.subrange(0, 0) =~= Seq::<NetworkV>::empty());
        assert(out@ =~= old(out)@ + net_rows(nv.subrange(0, 0)));
        assert(errors@ =~= old(errors)@ + net_errors(nv.subrange(0, 0)));
    }
    while i < nets.len()
        invariant
            i <= nets@.len(),
            out@ == old(out)@ + net_rows(nv.subrange(0, i as int)),
            errors@ == old(errors)@ + net_errors(nv.subrange(0, i as int)),
        decreases nets@.len() - i,
    {
        proof {
            let pre = nv.subrange(0, i as int);
            let cur = nv.subrange(0, i + 1);
            assert(cur.drop_last() =~= pre);
            assert(cur.last() == nv[i as int]);
        }
        if nets[i].wf_exec() {
            let row = nets[i].row_bytes();
            push_all(out, &row);
            assert(out@ =~= old(out)@ + net_rows(nv.subrange(0, i + 1)));
            assert(errors@ =~= old(errors)@ + net_errors(nv.subrange(0, i + 1)));
        } else {
            errors.push(i);
            assert(out@ =~= old(out)@ + net_rows(nv.subrange(0, i + 1)));
            assert(errors@ =~= old(errors)@ + net_errors(nv.subrange(0, i + 1)));
        }
        i = i + 1;
    }
    proof {
        assert(nv.subrange(0, nets@.len() as int) =~= nv);
    }
}

} // verus!
