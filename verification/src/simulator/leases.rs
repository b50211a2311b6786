//! The simulated lease file: a lease for each local host of the simulated
//! connections.

use crate::common::addr::IpAddress;
use crate::common::text::{append, append_str, same_bytes, SPACE};
use crate::simulator::conntrack::{ConntrackSimulator, ConntrackTarget};
use vstd::prelude::*;
use vstd::string::StringSliceAdditionalSpecFns;

verus! {

#[derive(Debug)]
pub struct LeasesSimulator<'a> {
    file: &'a str,
}

/// Whether the connection at `at` is the last of its address family with
/// its host name: each name gets one lease in each family, with the
/// address of the last connection that bears it.
pub open spec fn is_last_of_name(targets: Seq<ConntrackTarget>, at: int) -> bool {
    forall|later: int|
        at < later < targets.len() ==> !((#[trigger] targets[later]).source_hostname@
            == targets[at].source_hostname@ && (targets[later].source_ip_addr is V4
            <==> targets[at].source_ip_addr is V4))
}

/// The line of the lease of the local host of `target`.
pub open spec fn spec_render_lease(target: ConntrackTarget) -> Seq<u8> {
    if target.source_ip_addr is V4 {
        "1562986769 74:c2:46:12:34:56 ".spec_bytes() + target.source_ip_addr.text().push(SPACE)
            + target.source_hostname@ + " 01:74:c2:46:12:34:56\n".spec_bytes()
    } else {
        "1561852704 224934210 ".spec_bytes() + target.source_ip_addr.text().push(SPACE)
            + target.source_hostname@
            + " 00:04:2e:3b:43:05:a5:df:ad:a0:32:bb:a8:a8:d3:12:34:56\n".spec_bytes()
    }
}

/// The lines of the leases of one address family for the first `count`
/// connections.
pub open spec fn spec_render_family(targets: Seq<ConntrackTarget>, v4: bool, count: int) -> Seq<u8>
    decreases count,
{
    if count <= 0 {
        Seq::empty()
    } else {
        spec_render_family(targets, v4, count - 1) + (if (targets[count - 1].source_ip_addr is V4)
            == v4 && is_last_of_name(targets, count - 1) {
            spec_render_lease(targets[count - 1])
        } else {
            Seq::empty()
        })
    }
}

/// The text of the lease file: the IPv4 leases, the line of the server's
/// own identifier, and the IPv6 leases.
pub open spec fn spec_render(targets: Seq<ConntrackTarget>) -> Seq<u8> {
    spec_render_family(targets, true, targets.len() as int)
        + "duid 00:01:00:01:24:99:3a:37:00:01:2e:12:34:56\n".spec_bytes() + spec_render_family(
        targets,
        false,
        targets.len() as int,
    )
}

/// Whether no later connection of the family bears the name of the one at
/// `at`.
fn last_of_name(targets: &Vec<ConntrackTarget>, at: usize) -> (last: bool)
    requires
        at < targets@.len(),
    ensures
        last == is_last_of_name(targets@, at as int),
{
    let v4 = targets[at].source_ip_addr.is_ipv4();
    let count = targets.len();
    let mut later: usize = at + 1;
    while later < count
        invariant
            at < later <= targets@.len(),
            count == targets@.len(),
            v4 == (targets@[at as int].source_ip_addr is V4),
            forall|k: int|
                at < k < later ==> !((#[trigger] targets@[k]).source_hostname@ == targets@[at as int].source_hostname@
                    && (targets@[k].source_ip_addr is V4 <==> targets@[at as int].source_ip_addr is V4)),
        decreases targets@.len() - later,
    {
        if targets[later].source_ip_addr.is_ipv4() == v4 && same_bytes(
            targets[later].source_hostname.as_slice(),
            targets[at].source_hostname.as_slice(),
        ) {
            return false;
        }
        later += 1;
    }
    true
}

/// Appends the line of the lease of `target` to `out`.
fn render_lease(out: &mut Vec<u8>, target: &ConntrackTarget)
    ensures
        final(out)@ == old(out)@ + spec_render_lease(*target),
{
    match target.source_ip_addr {
        IpAddress::V4(_) => {
            append_str(out, "1562986769 74:c2:46:12:34:56 ");
            target.source_ip_addr.write_to(out);
            out.push(SPACE);
            append(out, target.source_hostname.as_slice());
            append_str(out, " 01:74:c2:46:12:34:56\n");
        },
        IpAddress::V6(_) => {
            append_str(out, "1561852704 224934210 ");
            target.source_ip_addr.write_to(out);
            out.push(SPACE);
            append(out, target.source_hostname.as_slice());
            append_str(out, " 00:04:2e:3b:43:05:a5:df:ad:a0:32:bb:a8:a8:d3:12:34:56\n");
        },
    }
}

/// Appends the lines of the leases of one address family to `out`.
fn render_family(out: &mut Vec<u8>, targets: &Vec<ConntrackTarget>, v4: bool)
    ensures
        final(out)@ == old(out)@ + spec_render_family(targets@, v4, targets@.len() as int),
{
    let mut i: usize = 0;
    while i < targets.len()
        invariant
            i <= targets@.len(),
            out@ == old(out)@ + spec_render_family(targets@, v4, i as int),
        decreases targets@.len() - i,
    {
        if targets[i].source_ip_addr.is_ipv4() == v4 && last_of_name(targets, i) {
            render_lease(out, &targets[i]);
        }
        i += 1;
    }
}

impl<'a> LeasesSimulator<'a> {
    /// The file that the simulation writes to.
    pub closed spec fn spec_file(&self) -> &'a str {
        self.file
    }

    pub fn new(file: &'a str) -> (simulator: LeasesSimulator<'a>)
        ensures
            simulator.spec_file() == file,
    {
        LeasesSimulator { file }
    }

    pub fn file(&self) -> (file: &'a str)
        ensures
            file == self.spec_file(),
    {
        self.file
    }

    /// The text to write to the file: the leases of the local hosts of the
    /// simulated connections.
    pub fn dump(&self, conntrack_simulator: &ConntrackSimulator) -> (text: Vec<u8>)
        ensures
            text@ == spec_render(conntrack_simulator.spec_targets()),
    {
        let targets = conntrack_simulator.targets();
        let mut text: Vec<u8> = Vec::new();
        render_family(&mut text, targets, true);
        append_str(&mut text, "duid 00:01:00:01:24:99:3a:37:00:01:2e:12:34:56\n");
        render_family(&mut text, targets, false);
        text
    }
}

} // verus!
