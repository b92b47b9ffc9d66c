use cctl::parsers::parse_cctl_infra_net_start_lines;
use cctl::parsers::parse_cctl_infra_node_view_port_lines;
use cctl::parsers::parse_cctl_infra_node_view_port_section;
use cctl::parsers::parse_cctl_infra_node_view_ports_node_id;
use cctl::parsers::parse_cctl_infra_node_view_ports_port;
use cctl::parsers::parse_cctl_infra_sidecar_view_port_lines;
use cctl::parsers::parse_cctl_infra_sidecar_view_port_section;
use cctl::parsers::parse_cctl_infra_sidecar_view_ports_node_id;
use cctl::parsers::parse_node_line;
use cctl::parsers::parse_sidecar_line;
use cctl::parsers::RawNodeType;
use cctl::CasperNodePorts;
use cctl::CasperSidecarPorts;
use cctl::NodeState;

#[test]
fn test_parse_node_line() {
    let input = "validator-group-1:cctl-node-1    RUNNING   pid 428229, uptime 0:09:06\n";
    let (_, parsed) = parse_node_line(input.as_bytes(), 0).unwrap();
    assert_eq!(RawNodeType::CasperNode(1, 1, NodeState::Running), parsed);
}

#[test]
fn test_parse_sidecar_line() {
    let input = "validator-group-1:cctl-node-1-sidecar    RUNNING   pid 626096, uptime 0:00:03\n";
    let (_, parsed) = parse_sidecar_line(input.as_bytes(), 0).unwrap();
    assert_eq!(RawNodeType::CasperSidecar(1, 1, NodeState::Running), parsed);
}

#[test]
fn test_parse_cctl_infra_net_start_lines() {
    let input = r#"
            2024-08-30T17:15:10.262713 [INFO] [626072] CCTL :: ---------------------------------------------------------------------------------
            2024-08-30T17:15:10.265112 [INFO] [626072] CCTL :: Network start begins
            2024-08-30T17:15:10.268196 [INFO] [626072] CCTL :: ---------------------------------------------------------------------------------
            2024-08-30T17:15:12.583839 [INFO] [626072] CCTL :: Daemon supervisor -> started
            2024-08-30T17:15:13.801089 [INFO] [626072] CCTL :: Genesis bootstrap nodes -> started
            2024-08-30T17:15:14.966443 [INFO] [626072] CCTL :: Genesis non-bootstrap nodes -> started
            validator-group-1:cctl-node-1            RUNNING   pid 626095, uptime 0:00:03
            validator-group-1:cctl-node-1-sidecar    RUNNING   pid 626096, uptime 0:00:03
            validator-group-1:cctl-node-2            RUNNING   pid 626097, uptime 0:00:03
            validator-group-1:cctl-node-2-sidecar    RUNNING   pid 626098, uptime 0:00:03
            validator-group-1:cctl-node-3            RUNNING   pid 626101, uptime 0:00:03
            validator-group-1:cctl-node-3-sidecar    RUNNING   pid 626102, uptime 0:00:03
            validator-group-2:cctl-node-4            RUNNING   pid 626285, uptime 0:00:02
            validator-group-2:cctl-node-4-sidecar    RUNNING   pid 626286, uptime 0:00:02
            validator-group-2:cctl-node-5            RUNNING   pid 626287, uptime 0:00:02
            validator-group-2:cctl-node-5-sidecar    RUNNING   pid 626288, uptime 0:00:02
            validator-group-3:cctl-node-10           STOPPED   Not started
            validator-group-3:cctl-node-10-sidecar   STOPPED   Not started
            validator-group-3:cctl-node-6            STOPPED   Not started
            validator-group-3:cctl-node-6-sidecar    STOPPED   Not started
            validator-group-3:cctl-node-7            STOPPED   Not started
            validator-group-3:cctl-node-7-sidecar    STOPPED   Not started
            validator-group-3:cctl-node-8            STOPPED   Not started
            validator-group-3:cctl-node-8-sidecar    STOPPED   Not started
            validator-group-3:cctl-node-9            STOPPED   Not started
            validator-group-3:cctl-node-9-sidecar    STOPPED   Not started
            2024-08-30T17:15:15.108318 [INFO] [626072] CCTL :: ---------------------------------------------------------------------------------
            2024-08-30T17:15:15.110310 [INFO] [626072] CCTL :: Network start ends
            2024-08-30T17:15:15.112531 [INFO] [626072] CCTL :: ---------------------------------------------------------------------------------
        "#;
    let (_, parsed) = parse_cctl_infra_net_start_lines(input.as_bytes(), 0).unwrap();
    let expected = vec![
        RawNodeType::CasperNode(1, 1, NodeState::Running),
        RawNodeType::CasperSidecar(1, 1, NodeState::Running),
        RawNodeType::CasperNode(1, 2, NodeState::Running),
        RawNodeType::CasperSidecar(1, 2, NodeState::Running),
        RawNodeType::CasperNode(1, 3, NodeState::Running),
        RawNodeType::CasperSidecar(1, 3, NodeState::Running),
        RawNodeType::CasperNode(2, 4, NodeState::Running),
        RawNodeType::CasperSidecar(2, 4, NodeState::Running),
        RawNodeType::CasperNode(2, 5, NodeState::Running),
        RawNodeType::CasperSidecar(2, 5, NodeState::Running),
        RawNodeType::CasperNode(3, 10, NodeState::Stopped),
        RawNodeType::CasperSidecar(3, 10, NodeState::Stopped),
        RawNodeType::CasperNode(3, 6, NodeState::Stopped),
        RawNodeType::CasperSidecar(3, 6, NodeState::Stopped),
        RawNodeType::CasperNode(3, 7, NodeState::Stopped),
        RawNodeType::CasperSidecar(3, 7, NodeState::Stopped),
        RawNodeType::CasperNode(3, 8, NodeState::Stopped),
        RawNodeType::CasperSidecar(3, 8, NodeState::Stopped),
        RawNodeType::CasperNode(3, 9, NodeState::Stopped),
        RawNodeType::CasperSidecar(3, 9, NodeState::Stopped),
    ];
    assert_eq!(expected, parsed);
}

#[test]
fn test_parse_cctl_infra_node_view_ports_node_id() {
    let input = "2024-09-02T08:44:46.871632 [INFO] [124520] CCTL :: NODE-1";
    let (_, parsed) = parse_cctl_infra_node_view_ports_node_id(input.as_bytes(), 0).unwrap();
    assert_eq!(1, parsed);
}

#[test]
fn test_parse_cctl_infra_node_view_ports_protocol() {
    let input = "2024-09-02T08:44:46.874259 [INFO] [124520] CCTL ::     PROTOCOL ----> 11101";
    let (_, parsed) =
        parse_cctl_infra_node_view_ports_port(b"PROTOCOL", input.as_bytes(), 0).unwrap();
    assert_eq!(11101, parsed);
}

#[test]
fn test_parse_cctl_infra_node_view_ports_binary() {
    let input = "2024-09-02T08:44:46.876701 [INFO] [124520] CCTL ::     BINARY ------> 12101";
    let (_, parsed) =
        parse_cctl_infra_node_view_ports_port(b"BINARY", input.as_bytes(), 0).unwrap();
    assert_eq!(12101, parsed);
}

#[test]
fn test_parse_cctl_infra_node_view_ports_rest() {
    let input = "2024-09-02T08:44:46.879103 [INFO] [124520] CCTL ::     REST --------> 13101";
    let (_, parsed) = parse_cctl_infra_node_view_ports_port(b"REST", input.as_bytes(), 0).unwrap();
    assert_eq!(13101, parsed);
}

#[test]
fn test_parse_cctl_infra_node_view_ports_sse() {
    let input = "2024-09-02T08:44:46.881573 [INFO] [124520] CCTL ::     SSE ---------> 14101";
    let (_, parsed) = parse_cctl_infra_node_view_ports_port(b"SSE", input.as_bytes(), 0).unwrap();
    assert_eq!(14101, parsed);
}

#[test]
fn test_parse_cctl_infra_node_view_port_node() {
    let input = r#"
            2024-09-02T08:44:46.871632 [INFO] [124520] CCTL :: NODE-1
            2024-09-02T08:44:46.874259 [INFO] [124520] CCTL ::     PROTOCOL ----> 11101
            2024-09-02T08:44:46.876701 [INFO] [124520] CCTL ::     BINARY ------> 12101
            2024-09-02T08:44:46.879103 [INFO] [124520] CCTL ::     REST --------> 13101
            2024-09-02T08:44:46.881573 [INFO] [124520] CCTL ::     SSE ---------> 14101
            2024-09-02T08:44:46.883303 [INFO] [124520] CCTL :: ------------------------------------------------------------------------------------------------------
        "#;
    let (_, parsed) = parse_cctl_infra_node_view_port_section(input.as_bytes(), 0).unwrap();
    assert_eq!(
        (
            1,
            CasperNodePorts {
                protocol_port: 11101,
                binary_port: 12101,
                rest_port: 13101,
                sse_port: 14101,
            }
        ),
        parsed
    );
}

#[test]
fn test_parse_cctl_infra_node_view_port_lines() {
    let input = r#"
            2024-09-02T08:44:46.865013 [INFO] [124520] CCTL :: ------------------------------------------------------------------------------------------------------
            2024-09-02T08:44:46.871632 [INFO] [124520] CCTL :: NODE-1
            2024-09-02T08:44:46.874259 [INFO] [124520] CCTL ::     PROTOCOL ----> 11101
            2024-09-02T08:44:46.876701 [INFO] [124520] CCTL ::     BINARY ------> 12101
            2024-09-02T08:44:46.879103 [INFO] [124520] CCTL ::     REST --------> 13101
            2024-09-02T08:44:46.881573 [INFO] [124520] CCTL ::     SSE ---------> 14101
            2024-09-02T08:44:46.883303 [INFO] [124520] CCTL :: ------------------------------------------------------------------------------------------------------
            2024-09-02T08:44:46.889475 [INFO] [124520] CCTL :: NODE-2
            2024-09-02T08:44:46.891804 [INFO] [124520] CCTL ::     PROTOCOL ----> 11102
            2024-09-02T08:44:46.894156 [INFO] [124520] CCTL ::     BINARY ------> 12102
            2024-09-02T08:44:46.896950 [INFO] [124520] CCTL ::     REST --------> 13102
            2024-09-02T08:44:46.899175 [INFO] [124520] CCTL ::     SSE ---------> 14102
            2024-09-02T08:44:46.901358 [INFO] [124520] CCTL :: ------------------------------------------------------------------------------------------------------
            2024-09-02T08:44:46.906934 [INFO] [124520] CCTL :: NODE-3
            2024-09-02T08:44:46.909238 [INFO] [124520] CCTL ::     PROTOCOL ----> 11103
            2024-09-02T08:44:46.911518 [INFO] [124520] CCTL ::     BINARY ------> 12103
            2024-09-02T08:44:46.913895 [INFO] [124520] CCTL ::     REST --------> 13103
            2024-09-02T08:44:46.916383 [INFO] [124520] CCTL ::     SSE ---------> 14103
            2024-09-02T08:44:46.918830 [INFO] [124520] CCTL :: ------------------------------------------------------------------------------------------------------
            2024-09-02T08:44:46.925381 [INFO] [124520] CCTL :: NODE-4
            2024-09-02T08:44:46.927266 [INFO] [124520] CCTL ::     PROTOCOL ----> 11104
            2024-09-02T08:44:46.929719 [INFO] [124520] CCTL ::     BINARY ------> 12104
            2024-09-02T08:44:46.932628 [INFO] [124520] CCTL ::     REST --------> 13104
            2024-09-02T08:44:46.934868 [INFO] [124520] CCTL ::     SSE ---------> 14104
            2024-09-02T08:44:46.937664 [INFO] [124520] CCTL :: ------------------------------------------------------------------------------------------------------
            2024-09-02T08:44:46.943128 [INFO] [124520] CCTL :: NODE-5
            2024-09-02T08:44:46.945253 [INFO] [124520] CCTL ::     PROTOCOL ----> 11105
            2024-09-02T08:44:46.947316 [INFO] [124520] CCTL ::     BINARY ------> 12105
            2024-09-02T08:44:46.949464 [INFO] [124520] CCTL ::     REST --------> 13105
            2024-09-02T08:44:46.951770 [INFO] [124520] CCTL ::     SSE ---------> 14105
            2024-09-02T08:44:46.954542 [INFO] [124520] CCTL :: ------------------------------------------------------------------------------------------------------
        "#;
    let (_, parsed) = parse_cctl_infra_node_view_port_lines(input.as_bytes(), 0);
    let expected = vec![
        (
            1,
            CasperNodePorts {
                protocol_port: 11101,
                binary_port: 12101,
                rest_port: 13101,
                sse_port: 14101,
            },
        ),
        (
            2,
            CasperNodePorts {
                protocol_port: 11102,
                binary_port: 12102,
                rest_port: 13102,
                sse_port: 14102,
            },
        ),
        (
            3,
            CasperNodePorts {
                protocol_port: 11103,
                binary_port: 12103,
                rest_port: 13103,
                sse_port: 14103,
            },
        ),
        (
            4,
            CasperNodePorts {
                protocol_port: 11104,
                binary_port: 12104,
                rest_port: 13104,
                sse_port: 14104,
            },
        ),
        (
            5,
            CasperNodePorts {
                protocol_port: 11105,
                binary_port: 12105,
                rest_port: 13105,
                sse_port: 14105,
            },
        ),
    ];
    assert_eq!(expected, parsed);
}

#[test]
fn test_parse_cctl_infra_sidecar_view_port_node() {
    let input = r#"
            2024-09-02T09:49:32.804362 [INFO] [194431] CCTL :: SIDECAR-1
            2024-09-02T09:49:32.807243 [INFO] [194431] CCTL ::     NODE-CLIENT -> 12101
            2024-09-02T09:49:32.809625 [INFO] [194431] CCTL ::     MAIN-RPC ----> 21101
            2024-09-02T09:49:32.811288 [INFO] [194431] CCTL ::     SPEC-EXEC ---> 22101
        "#;
    let (_, parsed) = parse_cctl_infra_sidecar_view_port_section(input.as_bytes(), 0).unwrap();
    assert_eq!(
        (
            1,
            CasperSidecarPorts {
                node_client_port: 12101,
                rpc_port: 21101,
                speculative_exec_port: 22101,
            }
        ),
        parsed
    );
}

#[test]
fn test_parse_cctl_infra_sidecar_view_port_lines() {
    let input = r#"
            2024-09-02T09:49:32.792987 [INFO] [194431] CCTL :: ------------------------------------------------------------------------------------------------------
            2024-09-02T09:49:32.794753 [INFO] [194431] CCTL :: SIDECAR PORTS
            2024-09-02T09:49:32.796968 [INFO] [194431] CCTL :: ------------------------------------------------------------------------------------------------------
            2024-09-02T09:49:32.804362 [INFO] [194431] CCTL :: SIDECAR-1
            2024-09-02T09:49:32.807243 [INFO] [194431] CCTL ::     NODE-CLIENT -> 12101
            2024-09-02T09:49:32.809625 [INFO] [194431] CCTL ::     MAIN-RPC ----> 21101
            2024-09-02T09:49:32.811288 [INFO] [194431] CCTL ::     SPEC-EXEC ---> 22101
            2024-09-02T09:49:32.816160 [INFO] [194431] CCTL :: SIDECAR-2
            2024-09-02T09:49:32.818236 [INFO] [194431] CCTL ::     NODE-CLIENT -> 12102
            2024-09-02T09:49:32.820258 [INFO] [194431] CCTL ::     MAIN-RPC ----> 21102
            2024-09-02T09:49:32.822750 [INFO] [194431] CCTL ::     SPEC-EXEC ---> 22102
            2024-09-02T09:49:32.827580 [INFO] [194431] CCTL :: SIDECAR-3
            2024-09-02T09:49:32.829656 [INFO] [194431] CCTL ::     NODE-CLIENT -> 12103
            2024-09-02T09:49:32.831461 [INFO] [194431] CCTL ::     MAIN-RPC ----> 21103
            2024-09-02T09:49:32.833187 [INFO] [194431] CCTL ::     SPEC-EXEC ---> 22103
            2024-09-02T09:49:32.837294 [INFO] [194431] CCTL :: SIDECAR-4
            2024-09-02T09:49:32.839495 [INFO] [194431] CCTL ::     NODE-CLIENT -> 12104
            2024-09-02T09:49:32.841550 [INFO] [194431] CCTL ::     MAIN-RPC ----> 21104
            2024-09-02T09:49:32.843292 [INFO] [194431] CCTL ::     SPEC-EXEC ---> 22104
            2024-09-02T09:49:32.847555 [INFO] [194431] CCTL :: SIDECAR-5
            2024-09-02T09:49:32.849820 [INFO] [194431] CCTL ::     NODE-CLIENT -> 12105
            2024-09-02T09:49:32.852074 [INFO] [194431] CCTL ::     MAIN-RPC ----> 21105
            2024-09-02T09:49:32.853727 [INFO] [194431] CCTL ::     SPEC-EXEC ---> 22105
        "#;
    let (_, parsed) = parse_cctl_infra_sidecar_view_port_lines(input.as_bytes(), 0);
    let expected = vec![
        (
            1,
            CasperSidecarPorts {
                node_client_port: 12101,
                rpc_port: 21101,
                speculative_exec_port: 22101,
            },
        ),
        (
            2,
            CasperSidecarPorts {
                node_client_port: 12102,
                rpc_port: 21102,
                speculative_exec_port: 22102,
            },
        ),
        (
            3,
            CasperSidecarPorts {
                node_client_port: 12103,
                rpc_port: 21103,
                speculative_exec_port: 22103,
            },
        ),
        (
            4,
            CasperSidecarPorts {
                node_client_port: 12104,
                rpc_port: 21104,
                speculative_exec_port: 22104,
            },
        ),
        (
            5,
            CasperSidecarPorts {
                node_client_port: 12105,
                rpc_port: 21105,
                speculative_exec_port: 22105,
            },
        ),
    ];
    assert_eq!(expected, parsed);
}

#[test]
fn node_parser_rejects_sidecar_line() {
    let input = "validator-group-1:cctl-node-1-sidecar    RUNNING   pid 626096, uptime 0:00:03\n";
    assert_eq!(None, parse_node_line(input.as_bytes(), 0));
}

#[test]
fn sidecar_parser_rejects_plain_node_line() {
    let input = "validator-group-1:cctl-node-1    RUNNING   pid 428229, uptime 0:09:06\n";
    assert_eq!(None, parse_sidecar_line(input.as_bytes(), 0));
}

#[test]
fn node_line_with_stopped_state_and_multiple_digits() {
    let input = "validator-group-3:cctl-node-10           STOPPED   Not started";
    let (consumed, parsed) = parse_node_line(input.as_bytes(), 0).unwrap();
    assert_eq!(input.len(), consumed);
    assert_eq!(RawNodeType::CasperNode(3, 10, NodeState::Stopped), parsed);
}

#[test]
fn node_line_with_overflowing_id_fails() {
    let input = "validator-group-300:cctl-node-1    RUNNING   x";
    assert_eq!(None, parse_node_line(input.as_bytes(), 0));
}

#[test]
fn net_start_lines_without_marker_fail() {
    let input = "some banner text\nwith no topology at all\n";
    assert_eq!(None, parse_cctl_infra_net_start_lines(input.as_bytes(), 0));
}

#[test]
fn net_start_lines_stop_at_first_malformed_line() {
    let input = "validator-group-1:cctl-node-1    RUNNING   x\n\
                 not a topology line\n\
                 validator-group-1:cctl-node-2    RUNNING   x\n";
    let (_, parsed) = parse_cctl_infra_net_start_lines(input.as_bytes(), 0).unwrap();
    assert_eq!(vec![RawNodeType::CasperNode(1, 1, NodeState::Running)], parsed);
}

#[test]
fn node_ports_round_trip_for_id_7() {
    let report = format!(
        "CCTL :: NODE-{}\nCCTL ::     PROTOCOL ----> {}\nCCTL ::     BINARY ------> {}\nCCTL ::     REST --------> {}\nCCTL ::     SSE ---------> {}\n",
        7, 11107, 12107, 13107, 14107
    );
    let (_, parsed) = parse_cctl_infra_node_view_port_lines(report.as_bytes(), 0);
    assert_eq!(
        vec![(
            7,
            CasperNodePorts {
                protocol_port: 11107,
                binary_port: 12107,
                rest_port: 13107,
                sse_port: 14107,
            },
        )],
        parsed
    );
}

#[test]
fn port_section_parsing_is_idempotent_and_order_preserving() {
    let mut report = String::new();
    for id in 1..=4u8 {
        report.push_str(&format!(
            "CCTL :: NODE-{}\nPROTOCOL -> {}\nBINARY -> {}\nREST -> {}\nSSE -> {}\n",
            id,
            11100 + id as u16,
            12100 + id as u16,
            13100 + id as u16,
            14100 + id as u16
        ));
    }
    let (end_a, first) = parse_cctl_infra_node_view_port_lines(report.as_bytes(), 0);
    let (end_b, second) = parse_cctl_infra_node_view_port_lines(report.as_bytes(), 0);
    assert_eq!(first, second);
    assert_eq!(end_a, end_b);
    assert_eq!(4, first.len());
    for (i, (id, ports)) in first.iter().enumerate() {
        let expected_id = (i + 1) as u8;
        assert_eq!(expected_id, *id);
        assert_eq!(11100 + expected_id as u16, ports.protocol_port);
        assert_eq!(12100 + expected_id as u16, ports.binary_port);
        assert_eq!(13100 + expected_id as u16, ports.rest_port);
        assert_eq!(14100 + expected_id as u16, ports.sse_port);
    }
}
