use adcn::network::A380AvionicsDataCommunicationNetwork;
use adcn::signals::SignalWriter;

fn run_tick(
    net: &mut A380AvionicsDataCommunicationNetwork,
    availability: Vec<bool>,
) -> SignalWriter {
    assert_eq!(availability.len(), 16);
    let mut writer = SignalWriter::new();
    net.update(&availability);
    net.write(&mut writer);
    writer
}

#[test]
fn network_a_no_power() {
    let mut net = A380AvionicsDataCommunicationNetwork::new();
    let writer = run_tick(&mut net, vec![false; 16]);

    let connection_combinatorics = [
        vec![1, 2, 3, 4, 5, 6, 7, 9],
        vec![2, 3, 4, 5, 6, 7, 9],
        vec![3, 4, 5, 6, 7, 9],
        vec![4, 5, 6, 7, 9],
        vec![5, 6, 7, 9],
        vec![6, 7, 9],
        vec![7, 9],
        vec![9],
    ];

    for row in connection_combinatorics.iter() {
        let fixed_id = row[0];

        for &switch in row.iter() {
            let reachable_first = writer.read(fixed_id, switch);
            let reachable_second = writer.read(switch, fixed_id);

            assert!(!reachable_first);
            assert!(!reachable_second);
        }
    }
}

#[test]
fn network_b_no_power() {
    let mut net = A380AvionicsDataCommunicationNetwork::new();
    let writer = run_tick(&mut net, vec![false; 16]);

    let connection_combinatorics = [
        vec![11, 12, 13, 14, 15, 16, 17, 19],
        vec![12, 13, 14, 15, 16, 17, 19],
        vec![13, 14, 15, 16, 17, 19],
        vec![14, 15, 16, 17, 19],
        vec![15, 16, 17, 19],
        vec![16, 17, 19],
        vec![17, 19],
        vec![19],
    ];

    for row in connection_combinatorics.iter() {
        let fixed_id = row[0];

        for &switch in row.iter() {
            let reachable_first = writer.read(fixed_id, switch);
            let reachable_second = writer.read(switch, fixed_id);

            assert!(!reachable_first);
            assert!(!reachable_second);
        }
    }
}

#[test]
fn network_a_up_and_running() {
    let mut net = A380AvionicsDataCommunicationNetwork::new();
    let writer = run_tick(&mut net, vec![true; 16]);

    let connection_combinatorics = [
        vec![1, 2, 3, 4, 5, 6, 7, 9],
        vec![2, 3, 4, 5, 6, 7, 9],
        vec![3, 4, 5, 6, 7, 9],
        vec![4, 5, 6, 7, 9],
        vec![5, 6, 7, 9],
        vec![6, 7, 9],
        vec![7, 9],
        vec![9],
    ];

    for row in connection_combinatorics.iter() {
        let fixed_id = row[0];

        for &switch in row.iter() {
            let reachable_first = writer.read(fixed_id, switch);
            let reachable_second = writer.read(switch, fixed_id);

            assert!(reachable_first);
            assert!(reachable_second);
        }
    }
}

#[test]
fn network_b_up_and_running() {
    let mut net = A380AvionicsDataCommunicationNetwork::new();
    let writer = run_tick(&mut net, vec![true; 16]);

    let connection_combinatorics = [
        vec![11, 12, 13, 14, 15, 16, 17, 19],
        vec![12, 13, 14, 15, 16, 17, 19],
        vec![13, 14, 15, 16, 17, 19],
        vec![14, 15, 16, 17, 19],
        vec![15, 16, 17, 19],
        vec![16, 17, 19],
        vec![17, 19],
        vec![19],
    ];

    for row in connection_combinatorics.iter() {
        let fixed_id = row[0];

        for &switch in row.iter() {
            let reachable_first = writer.read(fixed_id, switch);
            let reachable_second = writer.read(switch, fixed_id);

            assert!(reachable_first);
            assert!(reachable_second);
        }
    }
}

#[test]
fn network_a_isolate_switch_1() {
    let mut net = A380AvionicsDataCommunicationNetwork::new();
    // Switches 2, 3 and 9 (dense indices 1, 2 and 7) have a failure
    // injected; every other switch is powered.
    let mut availability = vec![true; 16];
    availability[1] = false;
    availability[2] = false;
    availability[7] = false;
    let writer = run_tick(&mut net, availability);

    let mut reachable = writer.read(1, 1);
    assert!(reachable);
    reachable = writer.read(1, 2);
    assert!(!reachable);
    reachable = writer.read(1, 3);
    assert!(!reachable);
    reachable = writer.read(1, 4);
    assert!(!reachable);
    reachable = writer.read(1, 5);
    assert!(!reachable);
    reachable = writer.read(1, 6);
    assert!(!reachable);
    reachable = writer.read(1, 7);
    assert!(!reachable);
    reachable = writer.read(1, 9);
    assert!(!reachable);
}

const ALL_IDS: [u8; 16] = [1, 2, 3, 4, 5, 6, 7, 9, 11, 12, 13, 14, 15, 16, 17, 19];

#[test]
fn published_signals_are_symmetric() {
    let mut net = A380AvionicsDataCommunicationNetwork::new();
    let mut availability = vec![true; 16];
    availability[3] = false;
    availability[6] = false;
    availability[9] = false;
    availability[15] = false;
    let writer = run_tick(&mut net, availability);

    for &x in ALL_IDS.iter() {
        for &y in ALL_IDS.iter() {
            assert_eq!(writer.read(x, y), writer.read(y, x));
        }
    }
}

#[test]
fn self_reachability_follows_availability() {
    let mut net = A380AvionicsDataCommunicationNetwork::new();
    let availability = vec![
        true, false, true, false, true, false, true, false, false, true, false, true, false,
        true, false, true,
    ];
    let writer = run_tick(&mut net, availability.clone());

    for (dense, &id) in ALL_IDS.iter().enumerate() {
        assert_eq!(writer.read(id, id), availability[dense]);
    }
}

#[test]
fn failing_a_switch_never_connects_other_pairs() {
    // Failing switch 7 (dense index 6) must not make any pair of the
    // remaining switches reachable that was not reachable before.
    let mut full_net = A380AvionicsDataCommunicationNetwork::new();
    let mut availability = vec![true; 16];
    availability[4] = false;
    let full_writer = run_tick(&mut full_net, availability.clone());

    let mut degraded_net = A380AvionicsDataCommunicationNetwork::new();
    availability[6] = false;
    let degraded_writer = run_tick(&mut degraded_net, availability);

    for &x in ALL_IDS.iter() {
        for &y in ALL_IDS.iter() {
            if x != 7 && y != 7 && degraded_writer.read(x, y) {
                assert!(full_writer.read(x, y));
            }
        }
    }
}

#[test]
fn unchanged_network_republishes_identical_values() {
    let mut net = A380AvionicsDataCommunicationNetwork::new();
    let first_writer = run_tick(&mut net, vec![true; 16]);

    // A change confined to the second network republishes both tables;
    // the first network's values must come out byte-identical.
    let mut availability = vec![true; 16];
    availability[12] = false;
    let second_writer = run_tick(&mut net, availability);

    let network_a_ids: [u8; 8] = [1, 2, 3, 4, 5, 6, 7, 9];
    for &x in network_a_ids.iter() {
        for &y in network_a_ids.iter() {
            assert_eq!(first_writer.read(x, y), second_writer.read(x, y));
        }
    }
}

#[test]
fn initial_state_is_published_once() {
    // The publish flag starts raised: a consumer pulling state before the
    // first tick sees the full all-false table, two writes per pair of
    // each network's 36 pairs.
    let net = A380AvionicsDataCommunicationNetwork::new();
    let mut writer = SignalWriter::new();
    net.write(&mut writer);
    assert_eq!(writer.write_count(), 2 * 36 * 2);
    assert!(!writer.read(1, 1));
    assert!(!writer.read(19, 11));
}

#[test]
fn quiet_tick_publishes_nothing() {
    let mut net = A380AvionicsDataCommunicationNetwork::new();
    let first_writer = run_tick(&mut net, vec![true; 16]);
    assert!(first_writer.read(1, 2));

    // No switch changed availability, so the tick publishes nothing and
    // the untouched bus keeps its cleared defaults.
    let second_writer = run_tick(&mut net, vec![true; 16]);
    assert_eq!(second_writer.write_count(), 0);
    assert!(!second_writer.read(1, 2));
    assert!(!second_writer.read(1, 1));
}

#[test]
fn partial_failure_splits_network() {
    // Every path between {1, 2, 9} (dense 0, 1, 7) and {5, 6, 7}
    // (dense 4, 5, 6) runs through switch 3 or switch 4 (dense 2, 3);
    // failing both splits the first network into two live islands.
    let mut net = A380AvionicsDataCommunicationNetwork::new();
    let mut availability = vec![true; 16];
    availability[2] = false;
    availability[3] = false;
    let writer = run_tick(&mut net, availability);

    // Pairs inside each island stay connected.
    assert!(writer.read(1, 2));
    assert!(writer.read(1, 9));
    assert!(writer.read(5, 6));
    assert!(writer.read(5, 7));
    // Pairs across the cut are severed.
    assert!(!writer.read(1, 5));
    assert!(!writer.read(2, 7));
    assert!(!writer.read(9, 6));
    // The failed switches are unreachable, even from themselves.
    assert!(!writer.read(3, 3));
    assert!(!writer.read(1, 4));
}
