use rollback_core::network::{startup_network_config, Endpoint, FIRST_PORT, LOOPBACK, SECOND_PORT};

#[test]
fn client_zero_binds_the_first_port() {
    let c = startup_network_config(0);
    assert_eq!(c.client, 0);
    assert_eq!(c.bind, Endpoint { address: 0x7F00_0001, port: 4001 });
    assert_eq!(c.remote, Endpoint { address: 0x7F00_0001, port: 4002 });
}

#[test]
fn every_other_client_binds_the_second_port() {
    for n in [1usize, 2, 7, usize::MAX] {
        let c = startup_network_config(n);
        assert_eq!(c.client, n);
        assert_eq!(c.bind, Endpoint { address: LOOPBACK, port: SECOND_PORT });
        assert_eq!(c.remote, Endpoint { address: LOOPBACK, port: FIRST_PORT });
    }
}

#[test]
fn the_two_peers_of_a_match_reach_each_other() {
    let a = startup_network_config(0);
    let b = startup_network_config(1);
    assert_eq!(a.bind, b.remote);
    assert_eq!(b.bind, a.remote);
}
