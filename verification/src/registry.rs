//! The port registry: joining topology records with port records.
//!
//! Every topology record carries a node or sidecar identifier; the port
//! reports carry the ports for each identifier. The join resolves each
//! record against the first port record with the same identifier, keeps the
//! original record order, and partitions the stream into node descriptors
//! and sidecar descriptors. An identifier without a port record is a
//! consistency violation of the external system and fails the whole join.

use vstd::prelude::*;

use crate::parsers::spec_parse_net_start_lines;
use crate::parsers::spec_node_port_list;
use crate::parsers::spec_sidecar_port_list;
use crate::parsers::RawNodeType;
use crate::CCTLNetwork;
use crate::CasperNode;
use crate::CasperNodePorts;
use crate::CasperSidecar;
use crate::CasperSidecarPorts;

verus! {

/// Why joining topology records with port records failed.
#[derive(Debug, PartialEq, Eq, Clone, Copy, Structural)]
pub enum RegistryError {
    /// A node topology record has no port record with its identifier.
    MissingNodePorts(u8),
    /// A sidecar topology record has no port record with its identifier.
    MissingSidecarPorts(u8),
}

/// The first node port record for `id` at or after index `i`, if any.
pub open spec fn spec_find_node_ports_from(
    ports: Seq<(u8, CasperNodePorts)>,
    id: u8,
    i: int,
) -> Option<CasperNodePorts>
    decreases ports.len() - i,
    when 0 <= i <= ports.len()
{
    if i < ports.len() {
        if ports[i].0 == id {
            Some(ports[i].1)
        } else {
            spec_find_node_ports_from(ports, id, i + 1)
        }
    } else {
        None
    }
}

pub open spec fn spec_find_node_ports(ports: Seq<(u8, CasperNodePorts)>, id: u8) -> Option<
    CasperNodePorts,
> {
    spec_find_node_ports_from(ports, id, 0)
}

/// The first sidecar port record for `id` at or after index `i`, if any.
pub open spec fn spec_find_sidecar_ports_from(
    ports: Seq<(u8, CasperSidecarPorts)>,
    id: u8,
    i: int,
) -> Option<CasperSidecarPorts>
    decreases ports.len() - i,
    when 0 <= i <= ports.len()
{
    if i < ports.len() {
        if ports[i].0 == id {
            Some(ports[i].1)
        } else {
            spec_find_sidecar_ports_from(ports, id, i + 1)
        }
    } else {
        None
    }
}

pub open spec fn spec_find_sidecar_ports(ports: Seq<(u8, CasperSidecarPorts)>, id: u8) -> Option<
    CasperSidecarPorts,
> {
    spec_find_sidecar_ports_from(ports, id, 0)
}

/// The join itself: each record in order is resolved against the port table
/// of its kind and appended to the descriptors of its kind; the first record
/// whose identifier has no port record fails the whole join.
pub open spec fn spec_join(
    records: Seq<RawNodeType>,
    node_ports: Seq<(u8, CasperNodePorts)>,
    sidecar_ports: Seq<(u8, CasperSidecarPorts)>,
) -> Result<(Seq<CasperNode>, Seq<CasperSidecar>), RegistryError>
    decreases records.len(),
{
    if records.len() == 0 {
        Ok((Seq::empty(), Seq::empty()))
    } else {
        match spec_join(records.drop_last(), node_ports, sidecar_ports) {
            Err(e) => Err(e),
            Ok((nodes, sidecars)) => match records.last() {
                RawNodeType::CasperNode(group, id, state) => match spec_find_node_ports(
                    node_ports,
                    id,
                ) {
                    None => Err(RegistryError::MissingNodePorts(id)),
                    Some(port) => Ok(
                        (
                            nodes.push(
                                CasperNode { id, validator_group_id: group, state, port },
                            ),
                            sidecars,
                        ),
                    ),
                },
                RawNodeType::CasperSidecar(group, id, state) => match spec_find_sidecar_ports(
                    sidecar_ports,
                    id,
                ) {
                    None => Err(RegistryError::MissingSidecarPorts(id)),
                    Some(port) => Ok(
                        (
                            nodes,
                            sidecars.push(
                                CasperSidecar { id, validator_group_id: group, state, port },
                            ),
                        ),
                    ),
                },
            },
        }
    }
}

/// A failed join stays failed, with the same error, when further records
/// follow the offending one.
proof fn lemma_join_err_extends(
    records: Seq<RawNodeType>,
    node_ports: Seq<(u8, CasperNodePorts)>,
    sidecar_ports: Seq<(u8, CasperSidecarPorts)>,
    i: int,
    j: int,
)
    requires
        0 <= i <= j <= records.len(),
        spec_join(records.subrange(0, i), node_ports, sidecar_ports) is Err,
    ensures
        spec_join(records.subrange(0, j), node_ports, sidecar_ports) == spec_join(
            records.subrange(0, i),
            node_ports,
            sidecar_ports,
        ),
    decreases j - i,
{
    if i < j {
        lemma_join_err_extends(records, node_ports, sidecar_ports, i, j - 1);
        assert(records.subrange(0, j).drop_last() =~= records.subrange(0, j - 1));
        assert(records.subrange(0, j).len() > 0);
    }
}

fn find_node_ports(ports: &Vec<(u8, CasperNodePorts)>, id: u8) -> (r: Option<CasperNodePorts>)
    ensures
        r == spec_find_node_ports(ports@, id),
{
    let mut i: usize = 0;
    while i < ports.len()
        invariant
            0 <= i <= ports@.len(),
            spec_find_node_ports(ports@, id) == spec_find_node_ports_from(ports@, id, i as int),
        decreases ports@.len() - i,
    {
        let (pid, port) = ports[i];
        if pid == id {
            return Some(port);
        }
        i = i + 1;
    }
    None
}

fn find_sidecar_ports(ports: &Vec<(u8, CasperSidecarPorts)>, id: u8) -> (r: Option<
    CasperSidecarPorts,
>)
    ensures
        r == spec_find_sidecar_ports(ports@, id),
{
    let mut i: usize = 0;
    while i < ports.len()
        invariant
            0 <= i <= ports@.len(),
            spec_find_sidecar_ports(ports@, id) == spec_find_sidecar_ports_from(
                ports@,
                id,
                i as int,
            ),
        decreases ports@.len() - i,
    {
        let (pid, port) = ports[i];
        if pid == id {
            return Some(port);
        }
        i = i + 1;
    }
    None
}

/// Resolves every topology record against the port table of its kind,
/// keeping record order and partitioning into nodes and sidecars; fails with
/// the first identifier that has no port record.
pub fn join_topology_with_ports(
    records: &Vec<RawNodeType>,
    node_ports: &Vec<(u8, CasperNodePorts)>,
    sidecar_ports: &Vec<(u8, CasperSidecarPorts)>,
) -> (r: Result<(Vec<CasperNode>, Vec<CasperSidecar>), RegistryError>)
    ensures
        (match r {
            Ok((nodes, sidecars)) => spec_join(records@, node_ports@, sidecar_ports@) == Ok::<
                _,
                RegistryError,
            >((nodes@, sidecars@)),
            Err(e) => spec_join(records@, node_ports@, sidecar_ports@) == Err::<
                (Seq<CasperNode>, Seq<CasperSidecar>),
                _,
            >(e),
        }),
{
    let mut nodes: Vec<CasperNode> = Vec::new();
    let mut sidecars: Vec<CasperSidecar> = Vec::new();
    let mut i: usize = 0;
    proof {
        assert(records@.subrange(0, 0) =~= Seq::<RawNodeType>::empty());
    }
    while i < records.len()
        invariant
            0 <= i <= records@.len(),
            spec_join(records@.subrange(0, i as int), node_ports@, sidecar_ports@) == Ok::<
                _,
                RegistryError,
            >((nodes@, sidecars@)),
        decreases records@.len() - i,
    {
        proof {
            assert(records@.subrange(0, i + 1).drop_last() =~= records@.subrange(0, i as int));
            assert(records@.subrange(0, i + 1).last() == records@[i as int]);
        }
        match records[i] {
            RawNodeType::CasperNode(group, id, state) => {
                match find_node_ports(node_ports, id) {
                    None => {
                        proof {
                            lemma_join_err_extends(
                                records@,
                                node_ports@,
                                sidecar_ports@,
                                i + 1,
                                records@.len() as int,
                            );
                            assert(records@.subrange(0, records@.len() as int) =~= records@);
                        }
                        return Err(RegistryError::MissingNodePorts(id));
                    },
                    Some(port) => {
                        nodes.push(CasperNode { id, validator_group_id: group, state, port });
                    },
                }
            },
            RawNodeType::CasperSidecar(group, id, state) => {
                match find_sidecar_ports(sidecar_ports, id) {
                    None => {
                        proof {
                            lemma_join_err_extends(
                                records@,
                                node_ports@,
                                sidecar_ports@,
                                i + 1,
                                records@.len() as int,
                            );
                            assert(records@.subrange(0, records@.len() as int) =~= records@);
                        }
                        return Err(RegistryError::MissingSidecarPorts(id));
                    },
                    Some(port) => {
                        sidecars.push(
                            CasperSidecar { id, validator_group_id: group, state, port },
                        );
                    },
                }
            },
        }
        i = i + 1;
    }
    proof {
        assert(records@.subrange(0, records@.len() as int) =~= records@);
    }
    Ok((nodes, sidecars))
}

/// Why assembling the network from the raw command outputs failed.
#[derive(Debug, PartialEq, Eq, Clone, Copy, Structural)]
pub enum NetworkBuildError {
    /// The topology log never mentions a validator group, so there is no
    /// topology to parse.
    TopologyMarkerMissing,
    /// The join of topology records with port records failed.
    Registry(RegistryError),
}

/// Assembles the network aggregate from the captured output of the three
/// control commands: parse the topology log, parse both port reports, join,
/// and wrap the descriptors together with the working directory.
pub fn build_network(
    working_dir: String,
    net_start_output: &[u8],
    node_ports_output: &[u8],
    sidecar_ports_output: &[u8],
) -> (r: Result<CCTLNetwork, NetworkBuildError>)
    ensures
        (match r {
            Ok(net) => {
                &&& net.working_dir@ == working_dir@
                &&& spec_parse_net_start_lines(net_start_output@, 0) matches Some((_, recs))
                    && spec_join(
                    recs,
                    spec_node_port_list(node_ports_output@, 0).1,
                    spec_sidecar_port_list(sidecar_ports_output@, 0).1,
                ) == Ok::<_, RegistryError>((net.casper_nodes@, net.casper_sidecars@))
            },
            Err(NetworkBuildError::TopologyMarkerMissing) => spec_parse_net_start_lines(
                net_start_output@,
                0,
            ) is None,
            Err(NetworkBuildError::Registry(e)) => spec_parse_net_start_lines(
                net_start_output@,
                0,
            ) matches Some((_, recs)) && spec_join(
                recs,
                spec_node_port_list(node_ports_output@, 0).1,
                spec_sidecar_port_list(sidecar_ports_output@, 0).1,
            ) == Err::<(Seq<CasperNode>, Seq<CasperSidecar>), _>(e),
        }),
{
    let records = match crate::parsers::parse_cctl_infra_net_start_lines(net_start_output, 0) {
        None => {
            return Err(NetworkBuildError::TopologyMarkerMissing);
        },
        Some((_, records)) => records,
    };
    let (_, node_ports) = crate::parsers::parse_cctl_infra_node_view_port_lines(
        node_ports_output,
        0,
    );
    let (_, sidecar_ports) = crate::parsers::parse_cctl_infra_sidecar_view_port_lines(
        sidecar_ports_output,
        0,
    );
    match join_topology_with_ports(&records, &node_ports, &sidecar_ports) {
        Err(e) => Err(NetworkBuildError::Registry(e)),
        Ok((casper_nodes, casper_sidecars)) => Ok(
            CCTLNetwork { working_dir, casper_nodes, casper_sidecars },
        ),
    }
}


// ---------------------------------------------------------------------------
// Laws of the join
// ---------------------------------------------------------------------------

/// Law: the join succeeds exactly when every topology record's identifier
/// has a port record of its kind; a record whose identifier is absent from
/// the port records is a fatal condition, not a silently dropped entry.
pub proof fn lemma_join_ok_iff_all_matched(
    records: Seq<RawNodeType>,
    node_ports: Seq<(u8, CasperNodePorts)>,
    sidecar_ports: Seq<(u8, CasperSidecarPorts)>,
)
    ensures
        spec_join(records, node_ports, sidecar_ports) is Ok <==> (forall|i: int|
            0 <= i < records.len() ==> (match #[trigger] records[i] {
                RawNodeType::CasperNode(_, id, _) => spec_find_node_ports(node_ports, id) is Some,
                RawNodeType::CasperSidecar(_, id, _) => spec_find_sidecar_ports(
                    sidecar_ports,
                    id,
                ) is Some,
            })),
    decreases records.len(),
{
    if records.len() > 0 {
        lemma_join_ok_iff_all_matched(records.drop_last(), node_ports, sidecar_ports);
        assert(forall|i: int|
            0 <= i < records.len() - 1 ==> records.drop_last()[i] == #[trigger] records[i]);
        assert(records[records.len() - 1] == records.last());
    }
}

/// Law: a successful join partitions the record stream: every record lands
/// in exactly one of the two outputs, so the descriptor counts add up to
/// the record count.
pub proof fn lemma_join_partitions(
    records: Seq<RawNodeType>,
    node_ports: Seq<(u8, CasperNodePorts)>,
    sidecar_ports: Seq<(u8, CasperSidecarPorts)>,
)
    ensures
        spec_join(records, node_ports, sidecar_ports) matches Ok((nodes, sidecars))
            ==> nodes.len() + sidecars.len() == records.len(),
    decreases records.len(),
{
    if records.len() > 0 {
        lemma_join_partitions(records.drop_last(), node_ports, sidecar_ports);
    }
}

} // verus!
